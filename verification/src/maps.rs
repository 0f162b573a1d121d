//! Sorted association maps and sets, keyed by strings or edge keys.
//!
//! Every container is a vector kept strictly sorted by key, so keys are
//! unique and iteration order is deterministic (ascending).  The model of
//! a map is its ordered entry sequence; a derived `Map` view serves the
//! contracts that only care about content.

use crate::edge::{lemma_edge_key_lt_trans, lemma_edge_key_lt_trichotomy, edge_key_cmp, edge_key_lt, EdgeKey, EdgeKeyView};
use crate::order::{cmp_str, lemma_str_lt_trans, lemma_str_lt_trichotomy, str_lt};
use core::cmp::Ordering;
use vstd::prelude::*;

verus! {

/// A string-keyed entry sequence is strictly sorted by key.
pub open spec fn smap_wf<W>(s: Seq<(Seq<char>, W)>) -> bool {
    forall|i: int, j: int| 0 <= i < j < s.len() ==> str_lt(s[i].0, s[j].0)
}

/// Whether the entry sequence holds the key.
pub open spec fn smap_contains<W>(s: Seq<(Seq<char>, W)>, k: Seq<char>) -> bool {
    exists|i: int| 0 <= i < s.len() && s[i].0 == k
}

/// The position of the key.
pub open spec fn smap_index_of<W>(s: Seq<(Seq<char>, W)>, k: Seq<char>) -> int {
    choose|i: int| 0 <= i < s.len() && s[i].0 == k
}

/// The value under the key.
pub open spec fn smap_lookup<W>(s: Seq<(Seq<char>, W)>, k: Seq<char>) -> W {
    s[smap_index_of(s, k)].1
}

/// The content of the entry sequence as a map.
pub open spec fn smap_as_map<W>(s: Seq<(Seq<char>, W)>) -> Map<Seq<char>, W> {
    Map::new(|k: Seq<char>| smap_contains(s, k), |k: Seq<char>| smap_lookup(s, k))
}

/// In a sorted entry sequence each position holds its own key.
pub proof fn lemma_smap_at<W>(s: Seq<(Seq<char>, W)>, i: int)
    requires
        smap_wf(s),
        0 <= i < s.len(),
    ensures
        smap_contains(s, s[i].0),
        smap_index_of(s, s[i].0) == i,
        smap_lookup(s, s[i].0) == s[i].1,
        smap_as_map(s)[s[i].0] == s[i].1,
        smap_as_map(s).dom().contains(s[i].0),
{
    assert(smap_contains(s, s[i].0));
    let j = smap_index_of(s, s[i].0);
    if i != j {
        if i < j {
            assert(str_lt(s[i].0, s[j].0));
        } else {
            assert(str_lt(s[j].0, s[i].0));
        }
        lemma_str_lt_trichotomy(s[i].0, s[j].0);
    }
}

/// A scan position that passed every smaller key and stops below the key
/// at the position decides absence.
pub proof fn lemma_smap_absent<W>(s: Seq<(Seq<char>, W)>, k: Seq<char>, i: int)
    requires
        smap_wf(s),
        0 <= i <= s.len(),
        forall|j: int| 0 <= j < i ==> str_lt(s[j].0, k),
        i == s.len() || str_lt(k, s[i].0),
    ensures
        !smap_contains(s, k),
{
    if smap_contains(s, k) {
        let j = choose|j: int| 0 <= j < s.len() && s[j].0 == k;
        lemma_str_lt_trichotomy(s[j].0, k);
        if j >= i {
            assert(i < s.len());
            if j > i {
                assert(str_lt(s[i as int].0, s[j].0));
                lemma_str_lt_trans(k, s[i as int].0, s[j].0);
            }
            lemma_str_lt_trichotomy(k, s[j].0);
        }
    }
}

/// Inserting a fresh key at its sorted position keeps the sequence sorted
/// and adds exactly that binding to the content.
pub proof fn lemma_smap_insert<W>(s: Seq<(Seq<char>, W)>, k: Seq<char>, v: W, i: int)
    requires
        smap_wf(s),
        0 <= i <= s.len(),
        forall|j: int| 0 <= j < i ==> str_lt(s[j].0, k),
        i == s.len() || str_lt(k, s[i].0),
    ensures
        smap_wf(s.insert(i, (k, v))),
        smap_as_map(s.insert(i, (k, v))) == smap_as_map(s).insert(k, v),
{
    lemma_smap_absent(s, k, i);
    let r = s.insert(i, (k, v));
    assert forall|x: int, y: int| 0 <= x < y < r.len() implies str_lt(r[x].0, r[y].0) by {
        if x < i && y == i {
            assert(r[x] == s[x]);
        } else if x == i && y > i {
            assert(r[y] == s[y - 1]);
            if i < s.len() {
                if y - 1 > i {
                    assert(str_lt(s[i as int].0, s[y - 1].0));
                    lemma_str_lt_trans(k, s[i as int].0, s[y - 1].0);
                }
            }
        } else if x < i && y > i {
            assert(r[x] == s[x]);
            assert(r[y] == s[y - 1]);
            if y - 1 == x {
                assert(str_lt(s[x].0, k));
                assert(i == x + 1);
                assert(false);
            }
        } else if y < i {
            assert(r[x] == s[x]);
            assert(r[y] == s[y]);
        } else if x > i {
            assert(r[x] == s[x - 1]);
            assert(r[y] == s[y - 1]);
        }
    }
    assert(smap_wf(r));
    assert forall|q: Seq<char>| true implies #[trigger] smap_as_map(r).dom().contains(q)
        == smap_as_map(s).insert(k, v).dom().contains(q) by {
        if q == k {
            assert(r[i] == (k, v));
            assert(smap_contains(r, k));
        } else {
            if smap_contains(s, q) {
                let j = choose|j: int| 0 <= j < s.len() && s[j].0 == q;
                if j < i {
                    assert(r[j].0 == q);
                } else {
                    assert(r[j + 1].0 == q);
                }
                assert(smap_contains(r, q));
            }
            if smap_contains(r, q) {
                let j = choose|j: int| 0 <= j < r.len() && r[j].0 == q;
                if j < i {
                    assert(s[j].0 == q);
                } else {
                    assert(j != i);
                    assert(s[j - 1].0 == q);
                }
                assert(smap_contains(s, q));
            }
        }
    }
    assert forall|q: Seq<char>| #[trigger]
        smap_as_map(r).dom().contains(q) implies smap_as_map(r)[q] == smap_as_map(s).insert(
        k,
        v,
    )[q] by {
        if q == k {
            assert(r[i] == (k, v));
            lemma_smap_at(r, i);
        } else {
            let j = choose|j: int| 0 <= j < s.len() && s[j].0 == q;
            lemma_smap_at(s, j);
            if j < i {
                assert(r[j].0 == q);
                lemma_smap_at(r, j);
                assert(r[j].1 == s[j].1);
            } else {
                assert(r[j + 1].0 == q);
                lemma_smap_at(r, j + 1);
                assert(r[j + 1].1 == s[j].1);
            }
        }
    }
    assert(smap_as_map(r) =~= smap_as_map(s).insert(k, v));
}

/// Replacing the value at a position keeps the sequence sorted and
/// rebinds exactly that key.
pub proof fn lemma_smap_update<W>(s: Seq<(Seq<char>, W)>, i: int, v: W)
    requires
        smap_wf(s),
        0 <= i < s.len(),
    ensures
        smap_wf(s.update(i, (s[i].0, v))),
        smap_as_map(s.update(i, (s[i].0, v))) == smap_as_map(s).insert(s[i].0, v),
{
    let r = s.update(i, (s[i].0, v));
    assert forall|x: int, y: int| 0 <= x < y < r.len() implies str_lt(r[x].0, r[y].0) by {
        assert(r[x].0 == s[x].0);
        assert(r[y].0 == s[y].0);
    }
    assert(smap_wf(r));
    assert forall|q: Seq<char>| true implies #[trigger] smap_contains(r, q) == smap_contains(
        s,
        q,
    ) by {
        if smap_contains(s, q) {
            let j = choose|j: int| 0 <= j < s.len() && s[j].0 == q;
            assert(r[j].0 == q);
        }
        if smap_contains(r, q) {
            let j = choose|j: int| 0 <= j < r.len() && r[j].0 == q;
            assert(s[j].0 == q);
        }
    }
    assert forall|q: Seq<char>| #[trigger]
        smap_contains(r, q) implies smap_lookup(r, q) == smap_as_map(s).insert(s[i].0, v)[q] by {
        let j = choose|j: int| 0 <= j < s.len() && s[j].0 == q;
        lemma_smap_at(s, j);
        lemma_smap_at(r, j);
        if j == i {
            assert(r[j].1 == v);
        } else {
            assert(r[j].1 == s[j].1);
            if q == s[i].0 {
                if j < i {
                    assert(str_lt(s[j].0, s[i].0));
                } else {
                    assert(str_lt(s[i].0, s[j].0));
                }
                lemma_str_lt_trichotomy(s[j].0, s[i].0);
            }
        }
    }
    lemma_smap_at(s, i);
    assert(smap_as_map(r) =~= smap_as_map(s).insert(s[i].0, v));
}

/// The sorted form is canonical: two sorted entry sequences with the
/// same content are equal, so a map-level contract pins the sequence.
pub proof fn lemma_smap_canonical<W>(x: Seq<(Seq<char>, W)>, y: Seq<(Seq<char>, W)>)
    requires
        smap_wf(x),
        smap_wf(y),
        smap_as_map(x) == smap_as_map(y),
    ensures
        x == y,
    decreases x.len(),
{
    if x.len() == 0 {
        if y.len() != 0 {
            assert(smap_contains(y, y[0].0));
            assert(smap_as_map(y).dom().contains(y[0].0));
            assert(smap_as_map(x).dom().contains(y[0].0));
        }
        assert(x =~= y);
    } else {
        assert(smap_contains(x, x[0].0));
        assert(smap_as_map(x).dom().contains(x[0].0));
        assert(smap_as_map(y).dom().contains(x[0].0));
        assert(smap_contains(y, x[0].0));
        assert(y.len() != 0);
        // the heads carry the least key of the shared domain
        assert(x[0].0 == y[0].0) by {
            lemma_str_lt_trichotomy(x[0].0, y[0].0);
            if str_lt(x[0].0, y[0].0) {
                let j = choose|j: int| 0 <= j < y.len() && y[j].0 == x[0].0;
                if j > 0 {
                    assert(str_lt(y[0].0, y[j].0));
                    lemma_str_lt_trans(x[0].0, y[0].0, y[j].0);
                }
                lemma_str_lt_trichotomy(x[0].0, y[j].0);
            } else if str_lt(y[0].0, x[0].0) {
                assert(smap_contains(y, y[0].0));
                assert(smap_as_map(y).dom().contains(y[0].0));
                assert(smap_as_map(x).dom().contains(y[0].0));
                assert(smap_contains(x, y[0].0));
                let j = choose|j: int| 0 <= j < x.len() && x[j].0 == y[0].0;
                if j > 0 {
                    assert(str_lt(x[0].0, x[j].0));
                    lemma_str_lt_trans(y[0].0, x[0].0, x[j].0);
                }
                lemma_str_lt_trichotomy(y[0].0, x[j].0);
            }
        }
        lemma_smap_at(x, 0);
        lemma_smap_at(y, 0);
        assert(x[0].1 == y[0].1) by {
            assert(smap_as_map(x)[x[0].0] == x[0].1);
            assert(smap_as_map(y)[y[0].0] == y[0].1);
        }
        let xt = x.drop_first();
        let yt = y.drop_first();
        assert forall|q: Seq<char>| true implies #[trigger] smap_contains(x, q) == smap_contains(
            y,
            q,
        ) by {
            assert(smap_as_map(x).dom().contains(q) == smap_contains(x, q));
            assert(smap_as_map(y).dom().contains(q) == smap_contains(y, q));
            assert(smap_as_map(x).dom().contains(q) == smap_as_map(y).dom().contains(q));
        }
        assert forall|i: int, j: int| 0 <= i < j < xt.len() implies str_lt(xt[i].0, xt[j].0) by {
            assert(xt[i] == x[i + 1]);
            assert(xt[j] == x[j + 1]);
        }
        assert forall|i: int, j: int| 0 <= i < j < yt.len() implies str_lt(yt[i].0, yt[j].0) by {
            assert(yt[i] == y[i + 1]);
            assert(yt[j] == y[j + 1]);
        }
        // a tail holds exactly the non-head keys, with the same values
        assert forall|q: Seq<char>| true implies #[trigger] smap_contains(xt, q) == (smap_contains(
            x,
            q,
        ) && q != x[0].0) by {
            lemma_smap_tail_contains(x, q);
        }
        assert forall|q: Seq<char>| true implies #[trigger] smap_contains(yt, q) == (smap_contains(
            y,
            q,
        ) && q != y[0].0) by {
            lemma_smap_tail_contains(y, q);
        }
        assert forall|q: Seq<char>| #[trigger]
            smap_contains(xt, q) implies smap_contains(yt, q) && smap_lookup(xt, q)
            == smap_lookup(yt, q) by {
            lemma_smap_tail_lookup(x, q);
            assert(smap_contains(x, q));
            assert(smap_contains(y, q));
            assert(smap_contains(yt, q));
            lemma_smap_tail_lookup(y, q);
            assert(smap_as_map(x).dom().contains(q));
            assert(smap_as_map(x)[q] == smap_lookup(x, q));
            assert(smap_as_map(y)[q] == smap_lookup(y, q));
        }
        assert(smap_as_map(xt) =~= smap_as_map(yt));
        lemma_smap_canonical(xt, yt);
        assert(x =~= y) by {
            assert forall|k: int| 0 <= k < x.len() implies x[k] == y[k] by {
                if k > 0 {
                    assert(x[k] == xt[k - 1]);
                    assert(y[k] == yt[k - 1]);
                }
            }
        }
    }
}

/// The head's key does not recur in the tail, and every other key of the
/// whole sequence appears there.
proof fn lemma_smap_tail_contains<W>(s: Seq<(Seq<char>, W)>, q: Seq<char>)
    requires
        smap_wf(s),
        s.len() != 0,
    ensures
        smap_contains(s.drop_first(), q) == (smap_contains(s, q) && q != s[0].0),
{
    let t = s.drop_first();
    if smap_contains(t, q) {
        let j = choose|j: int| 0 <= j < t.len() && t[j].0 == q;
        assert(t[j] == s[j + 1]);
        assert(smap_contains(s, q));
        assert(str_lt(s[0].0, s[j + 1].0));
        lemma_str_lt_trichotomy(s[0].0, s[j + 1].0);
    }
    if smap_contains(s, q) && q != s[0].0 {
        let j = choose|j: int| 0 <= j < s.len() && s[j].0 == q;
        assert(j != 0);
        assert(t[j - 1] == s[j]);
        assert(smap_contains(t, q));
    }
}

/// A lookup in the tail agrees with the lookup in the whole sequence.
proof fn lemma_smap_tail_lookup<W>(s: Seq<(Seq<char>, W)>, q: Seq<char>)
    requires
        smap_wf(s),
        s.len() != 0,
        smap_contains(s.drop_first(), q),
    ensures
        smap_lookup(s.drop_first(), q) == smap_lookup(s, q),
{
    let t = s.drop_first();
    assert forall|i: int, j: int| 0 <= i < j < t.len() implies str_lt(t[i].0, t[j].0) by {
        assert(t[i] == s[i + 1]);
        assert(t[j] == s[j + 1]);
    }
    let j = smap_index_of(t, q);
    assert(0 <= j < t.len() && t[j].0 == q);
    lemma_smap_at(t, j);
    assert(t[j] == s[j + 1]);
    lemma_smap_at(s, j + 1);
}

/// A map from strings to values, its entries kept sorted by key.
pub struct StringMap<V: View> {
    entries: Vec<(String, V)>,
}

impl<V: View> View for StringMap<V> {
    type V = Seq<(Seq<char>, V::V)>;

    closed spec fn view(&self) -> Seq<(Seq<char>, V::V)> {
        Seq::new(self.entries@.len(), |i: int| (self.entries@[i].0@, self.entries@[i].1@))
    }
}

impl<V: View> StringMap<V> {
    /// The sorted-unique representation invariant: it holds of every
    /// reachable value of the type.
    #[verifier::type_invariant]
    pub open spec fn wf(self) -> bool {
        smap_wf(self@)
    }

    /// The empty map.
    pub fn new() -> (r: Self)
        ensures
            r@ == Seq::<(Seq<char>, V::V)>::empty(),
    {
        let r = StringMap { entries: Vec::new() };
        proof {
            assert(r@ =~= Seq::<(Seq<char>, V::V)>::empty());
        }
        r
    }

    /// Number of entries.
    pub fn len(&self) -> (r: usize)
        ensures
            r == self@.len(),
    {
        self.entries.len()
    }

    /// The key at the given position, ascending.
    pub fn key_at(&self, i: usize) -> (r: &String)
        requires
            i < self@.len(),
        ensures
            r@ == self@[i as int].0,
    {
        &self.entries[i].0
    }

    /// The value at the given position.
    pub fn val_at(&self, i: usize) -> (r: &V)
        requires
            i < self@.len(),
        ensures
            r@ == self@[i as int].1,
    {
        &self.entries[i].1
    }

    /// Where the key sits, or where it would be inserted: the position of
    /// the first key not below the probe, and whether it equals the probe.
    pub fn locate(&self, k: &str) -> (r: (usize, bool))
        ensures
            smap_wf(self@),
            r.0 <= self@.len(),
            forall|j: int| 0 <= j < r.0 ==> str_lt(self@[j].0, k@),
            r.1 ==> r.0 < self@.len() && self@[r.0 as int].0 == k@,
            !r.1 ==> (r.0 == self@.len() || str_lt(k@, self@[r.0 as int].0)),
            r.1 == smap_contains(self@, k@),
            r.1 ==> smap_index_of(self@, k@) == r.0,
    {
        proof {
            use_type_invariant(&*self);
        }
        let ghost s = self@;
        let n = self.entries.len();
        let mut i: usize = 0;
        let mut found = false;
        loop
            invariant_except_break
                !found,
            invariant
                n == s.len(),
                self@ == s,
                smap_wf(s),
                self.entries@.len() == s.len(),
                forall|x: int| 0 <= x < s.len() ==> self.entries@[x].0@ == s[x].0,
                i <= n,
                forall|j: int| 0 <= j < i ==> str_lt(s[j].0, k@),
            ensures
                i <= s.len(),
                forall|j: int| 0 <= j < i ==> str_lt(s[j].0, k@),
                found ==> i < s.len() && s[i as int].0 == k@,
                !found ==> i == s.len() || str_lt(k@, s[i as int].0),
            decreases n - i,
        {
            if i == n {
                break ;
            }
            match cmp_str(self.entries[i].0.as_str(), k) {
                Ordering::Less => {
                    i = i + 1;
                },
                Ordering::Equal => {
                    found = true;
                    break ;
                },
                Ordering::Greater => {
                    break ;
                },
            }
        }
        proof {
            if found {
                lemma_smap_at(s, i as int);
            } else {
                lemma_smap_absent(s, k@, i as int);
            }
        }
        (i, found)
    }

    /// The value under the key, if any.
    pub fn get(&self, k: &str) -> (r: Option<&V>)
        ensures
            match r {
                Some(v) => smap_contains(self@, k@) && v@ == smap_lookup(self@, k@),
                None => !smap_contains(self@, k@),
            },
    {
        let (i, found) = self.locate(k);
        if found {
            Some(self.val_at(i))
        } else {
            None
        }
    }

    /// Whether the key is bound.
    pub fn contains_key(&self, k: &str) -> (r: bool)
        ensures
            r == smap_contains(self@, k@),
    {
        let (_, found) = self.locate(k);
        found
    }

    /// Bind a fresh key.
    pub fn insert(&mut self, k: String, v: V)
        requires
            !smap_contains(old(self)@, k@),
        ensures
            smap_wf(final(self)@),
            final(self)@.len() == old(self)@.len() + 1,
            smap_as_map(final(self)@) == smap_as_map(old(self)@).insert(k@, v@),
    {
        proof {
            use_type_invariant(&*self);
        }
        let ghost s = self@;
        let (i, found) = self.locate(k.as_str());
        proof {
            if found {
                lemma_smap_at(s, i as int);
            }
            lemma_smap_insert(s, k@, v@, i as int);
        }
        let mut entries: Vec<(String, V)> = Vec::new();
        core::mem::swap(&mut entries, &mut self.entries);
        entries.insert(i, (k, v));
        proof {
            assert(Seq::new(entries@.len(), |x: int| (entries@[x].0@, entries@[x].1@)) =~= s.insert(
                i as int,
                (k@, v@),
            ));
        }
        self.entries = entries;
    }

    /// Swap the value at a position for another, returning the old one.
    pub fn replace_at(&mut self, i: usize, v: V) -> (r: V)
        requires
            i < old(self)@.len(),
        ensures
            smap_wf(final(self)@),
            r@ == old(self)@[i as int].1,
            final(self)@ == old(self)@.update(i as int, (old(self)@[i as int].0, v@)),
            smap_as_map(final(self)@) == smap_as_map(old(self)@).insert(
                old(self)@[i as int].0,
                v@,
            ),
    {
        proof {
            use_type_invariant(&*self);
        }
        let ghost s = self@;
        proof {
            lemma_smap_update(s, i as int, v@);
        }
        let mut entries: Vec<(String, V)> = Vec::new();
        core::mem::swap(&mut entries, &mut self.entries);
        let (k, old_v) = entries.remove(i);
        entries.insert(i, (k, v));
        proof {
            assert(Seq::new(entries@.len(), |x: int| (entries@[x].0@, entries@[x].1@)) =~= s.update(
                i as int,
                (s[i as int].0, v@),
            ));
        }
        self.entries = entries;
        old_v
    }
}

/// An edge-keyed entry sequence is strictly sorted by key.
pub open spec fn emap_wf<W>(s: Seq<(EdgeKeyView, W)>) -> bool {
    forall|i: int, j: int| 0 <= i < j < s.len() ==> edge_key_lt(s[i].0, s[j].0)
}

/// Whether the entry sequence holds the key.
pub open spec fn emap_contains<W>(s: Seq<(EdgeKeyView, W)>, k: EdgeKeyView) -> bool {
    exists|i: int| 0 <= i < s.len() && s[i].0 == k
}

/// The position of the key.
pub open spec fn emap_index_of<W>(s: Seq<(EdgeKeyView, W)>, k: EdgeKeyView) -> int {
    choose|i: int| 0 <= i < s.len() && s[i].0 == k
}

/// The value under the key.
pub open spec fn emap_lookup<W>(s: Seq<(EdgeKeyView, W)>, k: EdgeKeyView) -> W {
    s[emap_index_of(s, k)].1
}

/// The content of the entry sequence as a map.
pub open spec fn emap_as_map<W>(s: Seq<(EdgeKeyView, W)>) -> Map<EdgeKeyView, W> {
    Map::new(|k: EdgeKeyView| emap_contains(s, k), |k: EdgeKeyView| emap_lookup(s, k))
}

/// In a sorted entry sequence each position holds its own key.
pub proof fn lemma_emap_at<W>(s: Seq<(EdgeKeyView, W)>, i: int)
    requires
        emap_wf(s),
        0 <= i < s.len(),
    ensures
        emap_contains(s, s[i].0),
        emap_index_of(s, s[i].0) == i,
        emap_lookup(s, s[i].0) == s[i].1,
        emap_as_map(s)[s[i].0] == s[i].1,
        emap_as_map(s).dom().contains(s[i].0),
{
    assert(emap_contains(s, s[i].0));
    let j = emap_index_of(s, s[i].0);
    if i != j {
        if i < j {
            assert(edge_key_lt(s[i].0, s[j].0));
        } else {
            assert(edge_key_lt(s[j].0, s[i].0));
        }
        lemma_edge_key_lt_trichotomy(s[i].0, s[j].0);
    }
}

/// A scan position that passed every smaller key and stops below the key
/// at the position decides absence.
pub proof fn lemma_emap_absent<W>(s: Seq<(EdgeKeyView, W)>, k: EdgeKeyView, i: int)
    requires
        emap_wf(s),
        0 <= i <= s.len(),
        forall|j: int| 0 <= j < i ==> edge_key_lt(s[j].0, k),
        i == s.len() || edge_key_lt(k, s[i].0),
    ensures
        !emap_contains(s, k),
{
    if emap_contains(s, k) {
        let j = choose|j: int| 0 <= j < s.len() && s[j].0 == k;
        lemma_edge_key_lt_trichotomy(s[j].0, k);
        if j >= i {
            assert(i < s.len());
            if j > i {
                assert(edge_key_lt(s[i as int].0, s[j].0));
                lemma_edge_key_lt_trans(k, s[i as int].0, s[j].0);
            }
            lemma_edge_key_lt_trichotomy(k, s[j].0);
        }
    }
}

/// Inserting a fresh key at its sorted position keeps the sequence sorted
/// and adds exactly that binding to the content.
pub proof fn lemma_emap_insert<W>(s: Seq<(EdgeKeyView, W)>, k: EdgeKeyView, v: W, i: int)
    requires
        emap_wf(s),
        0 <= i <= s.len(),
        forall|j: int| 0 <= j < i ==> edge_key_lt(s[j].0, k),
        i == s.len() || edge_key_lt(k, s[i].0),
    ensures
        emap_wf(s.insert(i, (k, v))),
        emap_as_map(s.insert(i, (k, v))) == emap_as_map(s).insert(k, v),
{
    lemma_emap_absent(s, k, i);
    let r = s.insert(i, (k, v));
    assert forall|x: int, y: int| 0 <= x < y < r.len() implies edge_key_lt(r[x].0, r[y].0) by {
        if x < i && y == i {
            assert(r[x] == s[x]);
        } else if x == i && y > i {
            assert(r[y] == s[y - 1]);
            if i < s.len() {
                if y - 1 > i {
                    assert(edge_key_lt(s[i as int].0, s[y - 1].0));
                    lemma_edge_key_lt_trans(k, s[i as int].0, s[y - 1].0);
                }
            }
        } else if x < i && y > i {
            assert(r[x] == s[x]);
            assert(r[y] == s[y - 1]);
            if y - 1 == x {
                assert(edge_key_lt(s[x].0, k));
                assert(i == x + 1);
                assert(false);
            }
        } else if y < i {
            assert(r[x] == s[x]);
            assert(r[y] == s[y]);
        } else if x > i {
            assert(r[x] == s[x - 1]);
            assert(r[y] == s[y - 1]);
        }
    }
    assert(emap_wf(r));
    assert forall|q: EdgeKeyView| true implies #[trigger] emap_as_map(r).dom().contains(q)
        == emap_as_map(s).insert(k, v).dom().contains(q) by {
        if q == k {
            assert(r[i] == (k, v));
            assert(emap_contains(r, k));
        } else {
            if emap_contains(s, q) {
                let j = choose|j: int| 0 <= j < s.len() && s[j].0 == q;
                if j < i {
                    assert(r[j].0 == q);
                } else {
                    assert(r[j + 1].0 == q);
                }
                assert(emap_contains(r, q));
            }
            if emap_contains(r, q) {
                let j = choose|j: int| 0 <= j < r.len() && r[j].0 == q;
                if j < i {
                    assert(s[j].0 == q);
                } else {
                    assert(j != i);
                    assert(s[j - 1].0 == q);
                }
                assert(emap_contains(s, q));
            }
        }
    }
    assert forall|q: EdgeKeyView| #[trigger]
        emap_as_map(r).dom().contains(q) implies emap_as_map(r)[q] == emap_as_map(s).insert(
        k,
        v,
    )[q] by {
        if q == k {
            assert(r[i] == (k, v));
            lemma_emap_at(r, i);
        } else {
            let j = choose|j: int| 0 <= j < s.len() && s[j].0 == q;
            lemma_emap_at(s, j);
            if j < i {
                assert(r[j].0 == q);
                lemma_emap_at(r, j);
                assert(r[j].1 == s[j].1);
            } else {
                assert(r[j + 1].0 == q);
                lemma_emap_at(r, j + 1);
                assert(r[j + 1].1 == s[j].1);
            }
        }
    }
    assert(emap_as_map(r) =~= emap_as_map(s).insert(k, v));
}

/// Replacing the value at a position keeps the sequence sorted and
/// rebinds exactly that key.
pub proof fn lemma_emap_update<W>(s: Seq<(EdgeKeyView, W)>, i: int, v: W)
    requires
        emap_wf(s),
        0 <= i < s.len(),
    ensures
        emap_wf(s.update(i, (s[i].0, v))),
        emap_as_map(s.update(i, (s[i].0, v))) == emap_as_map(s).insert(s[i].0, v),
{
    let r = s.update(i, (s[i].0, v));
    assert forall|x: int, y: int| 0 <= x < y < r.len() implies edge_key_lt(r[x].0, r[y].0) by {
        assert(r[x].0 == s[x].0);
        assert(r[y].0 == s[y].0);
    }
    assert(emap_wf(r));
    assert forall|q: EdgeKeyView| true implies #[trigger] emap_contains(r, q) == emap_contains(
        s,
        q,
    ) by {
        if emap_contains(s, q) {
            let j = choose|j: int| 0 <= j < s.len() && s[j].0 == q;
            assert(r[j].0 == q);
        }
        if emap_contains(r, q) {
            let j = choose|j: int| 0 <= j < r.len() && r[j].0 == q;
            assert(s[j].0 == q);
        }
    }
    assert forall|q: EdgeKeyView| #[trigger]
        emap_contains(r, q) implies emap_lookup(r, q) == emap_as_map(s).insert(s[i].0, v)[q] by {
        let j = choose|j: int| 0 <= j < s.len() && s[j].0 == q;
        lemma_emap_at(s, j);
        lemma_emap_at(r, j);
        if j == i {
            assert(r[j].1 == v);
        } else {
            assert(r[j].1 == s[j].1);
            if q == s[i].0 {
                if j < i {
                    assert(edge_key_lt(s[j].0, s[i].0));
                } else {
                    assert(edge_key_lt(s[i].0, s[j].0));
                }
                lemma_edge_key_lt_trichotomy(s[j].0, s[i].0);
            }
        }
    }
    lemma_emap_at(s, i);
    assert(emap_as_map(r) =~= emap_as_map(s).insert(s[i].0, v));
}

/// The sorted form is canonical: two sorted entry sequences with the
/// same content are equal, so a map-level contract pins the sequence.
pub proof fn lemma_emap_canonical<W>(x: Seq<(EdgeKeyView, W)>, y: Seq<(EdgeKeyView, W)>)
    requires
        emap_wf(x),
        emap_wf(y),
        emap_as_map(x) == emap_as_map(y),
    ensures
        x == y,
    decreases x.len(),
{
    if x.len() == 0 {
        if y.len() != 0 {
            assert(emap_contains(y, y[0].0));
            assert(emap_as_map(y).dom().contains(y[0].0));
            assert(emap_as_map(x).dom().contains(y[0].0));
        }
        assert(x =~= y);
    } else {
        assert(emap_contains(x, x[0].0));
        assert(emap_as_map(x).dom().contains(x[0].0));
        assert(emap_as_map(y).dom().contains(x[0].0));
        assert(emap_contains(y, x[0].0));
        assert(y.len() != 0);
        // the heads carry the least key of the shared domain
        assert(x[0].0 == y[0].0) by {
            lemma_edge_key_lt_trichotomy(x[0].0, y[0].0);
            if edge_key_lt(x[0].0, y[0].0) {
                let j = choose|j: int| 0 <= j < y.len() && y[j].0 == x[0].0;
                if j > 0 {
                    assert(edge_key_lt(y[0].0, y[j].0));
                    lemma_edge_key_lt_trans(x[0].0, y[0].0, y[j].0);
                }
                lemma_edge_key_lt_trichotomy(x[0].0, y[j].0);
            } else if edge_key_lt(y[0].0, x[0].0) {
                assert(emap_contains(y, y[0].0));
                assert(emap_as_map(y).dom().contains(y[0].0));
                assert(emap_as_map(x).dom().contains(y[0].0));
                assert(emap_contains(x, y[0].0));
                let j = choose|j: int| 0 <= j < x.len() && x[j].0 == y[0].0;
                if j > 0 {
                    assert(edge_key_lt(x[0].0, x[j].0));
                    lemma_edge_key_lt_trans(y[0].0, x[0].0, x[j].0);
                }
                lemma_edge_key_lt_trichotomy(y[0].0, x[j].0);
            }
        }
        lemma_emap_at(x, 0);
        lemma_emap_at(y, 0);
        assert(x[0].1 == y[0].1) by {
            assert(emap_as_map(x)[x[0].0] == x[0].1);
            assert(emap_as_map(y)[y[0].0] == y[0].1);
        }
        let xt = x.drop_first();
        let yt = y.drop_first();
        assert forall|q: EdgeKeyView| true implies #[trigger] emap_contains(x, q) == emap_contains(
            y,
            q,
        ) by {
            assert(emap_as_map(x).dom().contains(q) == emap_contains(x, q));
            assert(emap_as_map(y).dom().contains(q) == emap_contains(y, q));
            assert(emap_as_map(x).dom().contains(q) == emap_as_map(y).dom().contains(q));
        }
        assert forall|i: int, j: int| 0 <= i < j < xt.len() implies edge_key_lt(
            xt[i].0,
            xt[j].0,
        ) by {
            assert(xt[i] == x[i + 1]);
            assert(xt[j] == x[j + 1]);
        }
        assert forall|i: int, j: int| 0 <= i < j < yt.len() implies edge_key_lt(
            yt[i].0,
            yt[j].0,
        ) by {
            assert(yt[i] == y[i + 1]);
            assert(yt[j] == y[j + 1]);
        }
        // a tail holds exactly the non-head keys, with the same values
        assert forall|q: EdgeKeyView| true implies #[trigger] emap_contains(xt, q) == (
        emap_contains(x, q) && q != x[0].0) by {
            lemma_emap_tail_contains(x, q);
        }
        assert forall|q: EdgeKeyView| true implies #[trigger] emap_contains(yt, q) == (
        emap_contains(y, q) && q != y[0].0) by {
            lemma_emap_tail_contains(y, q);
        }
        assert forall|q: EdgeKeyView| #[trigger]
            emap_contains(xt, q) implies emap_contains(yt, q) && emap_lookup(xt, q)
            == emap_lookup(yt, q) by {
            lemma_emap_tail_lookup(x, q);
            assert(emap_contains(x, q));
            assert(emap_contains(y, q));
            assert(emap_contains(yt, q));
            lemma_emap_tail_lookup(y, q);
            assert(emap_as_map(x).dom().contains(q));
            assert(emap_as_map(x)[q] == emap_lookup(x, q));
            assert(emap_as_map(y)[q] == emap_lookup(y, q));
        }
        assert(emap_as_map(xt) =~= emap_as_map(yt));
        lemma_emap_canonical(xt, yt);
        assert(x =~= y) by {
            assert forall|k: int| 0 <= k < x.len() implies x[k] == y[k] by {
                if k > 0 {
                    assert(x[k] == xt[k - 1]);
                    assert(y[k] == yt[k - 1]);
                }
            }
        }
    }
}

/// The head's key does not recur in the tail, and every other key of the
/// whole sequence appears there.
proof fn lemma_emap_tail_contains<W>(s: Seq<(EdgeKeyView, W)>, q: EdgeKeyView)
    requires
        emap_wf(s),
        s.len() != 0,
    ensures
        emap_contains(s.drop_first(), q) == (emap_contains(s, q) && q != s[0].0),
{
    let t = s.drop_first();
    if emap_contains(t, q) {
        let j = choose|j: int| 0 <= j < t.len() && t[j].0 == q;
        assert(t[j] == s[j + 1]);
        assert(emap_contains(s, q));
        assert(edge_key_lt(s[0].0, s[j + 1].0));
        lemma_edge_key_lt_trichotomy(s[0].0, s[j + 1].0);
    }
    if emap_contains(s, q) && q != s[0].0 {
        let j = choose|j: int| 0 <= j < s.len() && s[j].0 == q;
        assert(j != 0);
        assert(t[j - 1] == s[j]);
        assert(emap_contains(t, q));
    }
}

/// A lookup in the tail agrees with the lookup in the whole sequence.
proof fn lemma_emap_tail_lookup<W>(s: Seq<(EdgeKeyView, W)>, q: EdgeKeyView)
    requires
        emap_wf(s),
        s.len() != 0,
        emap_contains(s.drop_first(), q),
    ensures
        emap_lookup(s.drop_first(), q) == emap_lookup(s, q),
{
    let t = s.drop_first();
    assert forall|i: int, j: int| 0 <= i < j < t.len() implies edge_key_lt(t[i].0, t[j].0) by {
        assert(t[i] == s[i + 1]);
        assert(t[j] == s[j + 1]);
    }
    let j = emap_index_of(t, q);
    assert(0 <= j < t.len() && t[j].0 == q);
    lemma_emap_at(t, j);
    assert(t[j] == s[j + 1]);
    lemma_emap_at(s, j + 1);
}

/// A map from edge keys to values, its entries kept sorted by key.
pub struct EdgeKeyMap<V: View> {
    entries: Vec<(EdgeKey, V)>,
}

impl<V: View> View for EdgeKeyMap<V> {
    type V = Seq<(EdgeKeyView, V::V)>;

    closed spec fn view(&self) -> Seq<(EdgeKeyView, V::V)> {
        Seq::new(self.entries@.len(), |i: int| (self.entries@[i].0@, self.entries@[i].1@))
    }
}

impl<V: View> EdgeKeyMap<V> {
    /// The sorted-unique representation invariant: it holds of every
    /// reachable value of the type.
    #[verifier::type_invariant]
    pub open spec fn wf(self) -> bool {
        emap_wf(self@)
    }

    /// The empty map.
    pub fn new() -> (r: Self)
        ensures
            r@ == Seq::<(EdgeKeyView, V::V)>::empty(),
    {
        let r = EdgeKeyMap { entries: Vec::new() };
        proof {
            assert(r@ =~= Seq::<(EdgeKeyView, V::V)>::empty());
        }
        r
    }

    /// Number of entries.
    pub fn len(&self) -> (r: usize)
        ensures
            r == self@.len(),
    {
        self.entries.len()
    }

    /// The key at the given position, ascending.
    pub fn key_at(&self, i: usize) -> (r: &EdgeKey)
        requires
            i < self@.len(),
        ensures
            r@ == self@[i as int].0,
    {
        &self.entries[i].0
    }

    /// The value at the given position.
    pub fn val_at(&self, i: usize) -> (r: &V)
        requires
            i < self@.len(),
        ensures
            r@ == self@[i as int].1,
    {
        &self.entries[i].1
    }

    /// Where the key sits, or where it would be inserted: the position of
    /// the first key not below the probe, and whether it equals the probe.
    pub fn locate(&self, k: &EdgeKey) -> (r: (usize, bool))
        ensures
            emap_wf(self@),
            r.0 <= self@.len(),
            forall|j: int| 0 <= j < r.0 ==> edge_key_lt(self@[j].0, k@),
            r.1 ==> r.0 < self@.len() && self@[r.0 as int].0 == k@,
            !r.1 ==> (r.0 == self@.len() || edge_key_lt(k@, self@[r.0 as int].0)),
            r.1 == emap_contains(self@, k@),
            r.1 ==> emap_index_of(self@, k@) == r.0,
    {
        proof {
            use_type_invariant(&*self);
        }
        let ghost s = self@;
        let n = self.entries.len();
        let mut i: usize = 0;
        let mut found = false;
        loop
            invariant_except_break
                !found,
            invariant
                n == s.len(),
                self@ == s,
                emap_wf(s),
                self.entries@.len() == s.len(),
                forall|x: int| 0 <= x < s.len() ==> self.entries@[x].0@ == s[x].0,
                i <= n,
                forall|j: int| 0 <= j < i ==> edge_key_lt(s[j].0, k@),
            ensures
                i <= s.len(),
                forall|j: int| 0 <= j < i ==> edge_key_lt(s[j].0, k@),
                found ==> i < s.len() && s[i as int].0 == k@,
                !found ==> i == s.len() || edge_key_lt(k@, s[i as int].0),
            decreases n - i,
        {
            if i == n {
                break ;
            }
            match edge_key_cmp(&self.entries[i].0, k) {
                Ordering::Less => {
                    i = i + 1;
                },
                Ordering::Equal => {
                    found = true;
                    break ;
                },
                Ordering::Greater => {
                    break ;
                },
            }
        }
        proof {
            if found {
                lemma_emap_at(s, i as int);
            } else {
                lemma_emap_absent(s, k@, i as int);
            }
        }
        (i, found)
    }

    /// The value under the key, if any.
    pub fn get(&self, k: &EdgeKey) -> (r: Option<&V>)
        ensures
            match r {
                Some(v) => emap_contains(self@, k@) && v@ == emap_lookup(self@, k@),
                None => !emap_contains(self@, k@),
            },
    {
        let (i, found) = self.locate(k);
        if found {
            Some(self.val_at(i))
        } else {
            None
        }
    }

    /// Whether the key is bound.
    pub fn contains_key(&self, k: &EdgeKey) -> (r: bool)
        ensures
            r == emap_contains(self@, k@),
    {
        let (_, found) = self.locate(k);
        found
    }

    /// Bind a fresh key.
    pub fn insert(&mut self, k: EdgeKey, v: V)
        requires
            !emap_contains(old(self)@, k@),
        ensures
            emap_wf(final(self)@),
            final(self)@.len() == old(self)@.len() + 1,
            emap_as_map(final(self)@) == emap_as_map(old(self)@).insert(k@, v@),
    {
        proof {
            use_type_invariant(&*self);
        }
        let ghost s = self@;
        let (i, found) = self.locate(&k);
        proof {
            if found {
                lemma_emap_at(s, i as int);
            }
            lemma_emap_insert(s, k@, v@, i as int);
        }
        let mut entries: Vec<(EdgeKey, V)> = Vec::new();
        core::mem::swap(&mut entries, &mut self.entries);
        entries.insert(i, (k, v));
        proof {
            assert(Seq::new(entries@.len(), |x: int| (entries@[x].0@, entries@[x].1@)) =~= s.insert(
                i as int,
                (k@, v@),
            ));
        }
        self.entries = entries;
    }

    /// Swap the value at a position for another, returning the old one.
    pub fn replace_at(&mut self, i: usize, v: V) -> (r: V)
        requires
            i < old(self)@.len(),
        ensures
            emap_wf(final(self)@),
            r@ == old(self)@[i as int].1,
            final(self)@ == old(self)@.update(i as int, (old(self)@[i as int].0, v@)),
            emap_as_map(final(self)@) == emap_as_map(old(self)@).insert(
                old(self)@[i as int].0,
                v@,
            ),
    {
        proof {
            use_type_invariant(&*self);
        }
        let ghost s = self@;
        proof {
            lemma_emap_update(s, i as int, v@);
        }
        let mut entries: Vec<(EdgeKey, V)> = Vec::new();
        core::mem::swap(&mut entries, &mut self.entries);
        let (k, old_v) = entries.remove(i);
        entries.insert(i, (k, v));
        proof {
            assert(Seq::new(entries@.len(), |x: int| (entries@[x].0@, entries@[x].1@)) =~= s.update(
                i as int,
                (s[i as int].0, v@),
            ));
        }
        self.entries = entries;
        old_v
    }
}

} // verus!

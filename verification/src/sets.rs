//! Sorted sets of node ids and edge keys, used for tombstones.
//!
//! A set is a vector kept strictly sorted, so members are unique and
//! iteration order is deterministic (ascending).  Sets only ever grow.

use crate::edge::{lemma_edge_key_lt_trans, lemma_edge_key_lt_trichotomy, edge_key_cmp, edge_key_lt, EdgeKey, EdgeKeyView};
use crate::order::{cmp_str, lemma_str_lt_trans, lemma_str_lt_trichotomy, str_lt};
use core::cmp::Ordering;
use vstd::prelude::*;

verus! {

/// A string sequence is strictly sorted.
pub open spec fn sset_wf(s: Seq<Seq<char>>) -> bool {
    forall|i: int, j: int| 0 <= i < j < s.len() ==> str_lt(s[i], s[j])
}

/// A scan position that passed every smaller member and stops below the
/// member at the position decides absence.
proof fn lemma_sset_absent(s: Seq<Seq<char>>, k: Seq<char>, i: int)
    requires
        sset_wf(s),
        0 <= i <= s.len(),
        forall|j: int| 0 <= j < i ==> str_lt(s[j], k),
        i == s.len() || str_lt(k, s[i]),
    ensures
        !s.contains(k),
{
    if s.contains(k) {
        let j = choose|j: int| 0 <= j < s.len() && s[j] == k;
        lemma_str_lt_trichotomy(s[j], k);
        if j >= i {
            assert(i < s.len());
            if j > i {
                assert(str_lt(s[i as int], s[j]));
                lemma_str_lt_trans(k, s[i as int], s[j]);
            }
            lemma_str_lt_trichotomy(k, s[j]);
        }
    }
}

/// Inserting a fresh member at its sorted position keeps the sequence
/// sorted and adds exactly that member.
proof fn lemma_sset_insert(s: Seq<Seq<char>>, k: Seq<char>, i: int)
    requires
        sset_wf(s),
        0 <= i <= s.len(),
        forall|j: int| 0 <= j < i ==> str_lt(s[j], k),
        i == s.len() || str_lt(k, s[i]),
    ensures
        sset_wf(s.insert(i, k)),
        forall|q: Seq<char>| #[trigger] s.insert(i, k).contains(q) <==> s.contains(q) || q == k,
{
    let r = s.insert(i, k);
    assert forall|x: int, y: int| 0 <= x < y < r.len() implies str_lt(r[x], r[y]) by {
        if x < i && y == i {
            assert(r[x] == s[x]);
        } else if x == i && y > i {
            assert(r[y] == s[y - 1]);
            if i < s.len() && y - 1 > i {
                assert(str_lt(s[i as int], s[y - 1]));
                lemma_str_lt_trans(k, s[i as int], s[y - 1]);
            }
        } else if x < i && y > i {
            assert(r[x] == s[x]);
            assert(r[y] == s[y - 1]);
            if y - 1 == x {
                assert(false);
            }
        } else if y < i {
            assert(r[x] == s[x]);
            assert(r[y] == s[y]);
        } else if x > i {
            assert(r[x] == s[x - 1]);
            assert(r[y] == s[y - 1]);
        }
    }
    assert forall|q: Seq<char>| #[trigger] r.contains(q) <==> s.contains(q) || q == k by {
        if s.contains(q) {
            let j = choose|j: int| 0 <= j < s.len() && s[j] == q;
            if j < i {
                assert(r[j] == q);
            } else {
                assert(r[j + 1] == q);
            }
            assert(r.contains(q));
        }
        assert(r[i] == k);
        assert(r.contains(k));
        if r.contains(q) && q != k {
            let j = choose|j: int| 0 <= j < r.len() && r[j] == q;
            if j < i {
                assert(s[j] == q);
            } else {
                assert(j != i);
                assert(s[j - 1] == q);
            }
            assert(s.contains(q));
        }
    }
}

/// The sorted form is canonical: two sorted member sequences with the
/// same members are equal, so a content-level contract pins the sequence.
pub proof fn lemma_sset_canonical(x: Seq<Seq<char>>, y: Seq<Seq<char>>)
    requires
        sset_wf(x),
        sset_wf(y),
        forall|q: Seq<char>| #[trigger] x.contains(q) <==> y.contains(q),
    ensures
        x == y,
    decreases x.len(),
{
    if x.len() == 0 {
        if y.len() != 0 {
            assert(y.contains(y[0]));
            assert(x.contains(y[0]));
        }
        assert(x =~= y);
    } else {
        assert(x.contains(x[0]));
        assert(y.contains(x[0]));
        assert(y.len() != 0);
        // the heads are the least members
        assert(x[0] == y[0]) by {
            lemma_str_lt_trichotomy(x[0], y[0]);
            if str_lt(x[0], y[0]) {
                let j = choose|j: int| 0 <= j < y.len() && y[j] == x[0];
                if j > 0 {
                    assert(str_lt(y[0], y[j]));
                    lemma_str_lt_trans(x[0], y[0], y[j]);
                }
                lemma_str_lt_trichotomy(x[0], y[j]);
            } else if str_lt(y[0], x[0]) {
                assert(y.contains(y[0]));
                assert(x.contains(y[0]));
                let j = choose|j: int| 0 <= j < x.len() && x[j] == y[0];
                if j > 0 {
                    assert(str_lt(x[0], x[j]));
                    lemma_str_lt_trans(y[0], x[0], x[j]);
                }
                lemma_str_lt_trichotomy(y[0], x[j]);
            }
        }
        let xt = x.drop_first();
        let yt = y.drop_first();
        assert forall|i: int, j: int| 0 <= i < j < xt.len() implies str_lt(xt[i], xt[j]) by {
            assert(xt[i] == x[i + 1]);
            assert(xt[j] == x[j + 1]);
        }
        assert forall|i: int, j: int| 0 <= i < j < yt.len() implies str_lt(yt[i], yt[j]) by {
            assert(yt[i] == y[i + 1]);
            assert(yt[j] == y[j + 1]);
        }
        assert forall|q: Seq<char>| true implies #[trigger] xt.contains(q) == (x.contains(q) && q
            != x[0]) by {
            lemma_sset_tail_contains(x, q);
        }
        assert forall|q: Seq<char>| true implies #[trigger] yt.contains(q) == (y.contains(q) && q
            != y[0]) by {
            lemma_sset_tail_contains(y, q);
        }
        assert forall|q: Seq<char>| #[trigger] xt.contains(q) implies yt.contains(q) by {
            assert(x.contains(q));
        }
        assert forall|q: Seq<char>| #[trigger] yt.contains(q) implies xt.contains(q) by {
            assert(y.contains(q));
        }
        lemma_sset_canonical(xt, yt);
        assert(x =~= y) by {
            assert forall|k: int| 0 <= k < x.len() implies x[k] == y[k] by {
                if k > 0 {
                    assert(x[k] == xt[k - 1]);
                    assert(y[k] == yt[k - 1]);
                }
            }
        }
    }
}

/// The head does not recur in the tail, and every other member of the
/// whole sequence appears there.
proof fn lemma_sset_tail_contains(s: Seq<Seq<char>>, q: Seq<char>)
    requires
        sset_wf(s),
        s.len() != 0,
    ensures
        s.drop_first().contains(q) == (s.contains(q) && q != s[0]),
{
    let t = s.drop_first();
    if t.contains(q) {
        let j = choose|j: int| 0 <= j < t.len() && t[j] == q;
        assert(t[j] == s[j + 1]);
        assert(s.contains(q));
        assert(str_lt(s[0], s[j + 1]));
        lemma_str_lt_trichotomy(s[0], s[j + 1]);
    }
    if s.contains(q) && q != s[0] {
        let j = choose|j: int| 0 <= j < s.len() && s[j] == q;
        assert(j != 0);
        assert(t[j - 1] == s[j]);
        assert(t.contains(q));
    }
}

/// Grow-only set of node id strings, sorted ascending.
pub struct StringSet {
    items: Vec<String>,
}

impl View for StringSet {
    type V = Seq<Seq<char>>;

    closed spec fn view(&self) -> Seq<Seq<char>> {
        Seq::new(self.items@.len(), |i: int| self.items@[i]@)
    }
}

impl StringSet {
    /// The sorted-unique representation invariant: it holds of every
    /// reachable value of the type.
    #[verifier::type_invariant]
    pub open spec fn wf(self) -> bool {
        sset_wf(self@)
    }

    /// The empty set.
    pub fn new() -> (r: Self)
        ensures
            r@ == Seq::<Seq<char>>::empty(),
    {
        let r = StringSet { items: Vec::new() };
        proof {
            assert(r@ =~= Seq::<Seq<char>>::empty());
        }
        r
    }

    /// Number of members.
    pub fn len(&self) -> (r: usize)
        ensures
            r == self@.len(),
    {
        self.items.len()
    }

    /// The member at the given position, ascending.
    pub fn get(&self, i: usize) -> (r: &String)
        requires
            i < self@.len(),
        ensures
            r@ == self@[i as int],
    {
        &self.items[i]
    }

    /// Where the member sits, or where it would be inserted.
    fn locate(&self, k: &str) -> (r: (usize, bool))
        ensures
            sset_wf(self@),
            r.0 <= self@.len(),
            forall|j: int| 0 <= j < r.0 ==> str_lt(self@[j], k@),
            r.1 ==> r.0 < self@.len() && self@[r.0 as int] == k@,
            !r.1 ==> (r.0 == self@.len() || str_lt(k@, self@[r.0 as int])),
            r.1 == self@.contains(k@),
    {
        proof {
            use_type_invariant(&*self);
        }
        let ghost s = self@;
        let n = self.items.len();
        let mut i: usize = 0;
        let mut found = false;
        loop
            invariant_except_break
                !found,
            invariant
                n == s.len(),
                self@ == s,
                sset_wf(s),
                self.items@.len() == s.len(),
                forall|x: int| 0 <= x < s.len() ==> self.items@[x]@ == s[x],
                i <= n,
                forall|j: int| 0 <= j < i ==> str_lt(s[j], k@),
            ensures
                i <= s.len(),
                forall|j: int| 0 <= j < i ==> str_lt(s[j], k@),
                found ==> i < s.len() && s[i as int] == k@,
                !found ==> i == s.len() || str_lt(k@, s[i as int]),
            decreases n - i,
        {
            if i == n {
                break ;
            }
            match cmp_str(self.items[i].as_str(), k) {
                Ordering::Less => {
                    i = i + 1;
                },
                Ordering::Equal => {
                    found = true;
                    break ;
                },
                Ordering::Greater => {
                    break ;
                },
            }
        }
        proof {
            if !found {
                lemma_sset_absent(s, k@, i as int);
            }
        }
        (i, found)
    }

    /// Whether the member is in the set.
    pub fn contains(&self, k: &str) -> (r: bool)
        ensures
            r == self@.contains(k@),
    {
        let (_, found) = self.locate(k);
        found
    }

    /// Add a member; returns whether the set changed.  The set only ever
    /// grows: every old member is kept.
    pub fn insert(&mut self, k: String) -> (added: bool)
        ensures
            sset_wf(final(self)@),
            added == !old(self)@.contains(k@),
            forall|q: Seq<char>|
                #[trigger] final(self)@.contains(q) <==> old(self)@.contains(q) || q == k@,
            !added ==> final(self)@ == old(self)@,
    {
        proof {
            use_type_invariant(&*self);
        }
        let ghost s = self@;
        let (i, found) = self.locate(k.as_str());
        if found {
            return false;
        }
        proof {
            lemma_sset_insert(s, k@, i as int);
        }
        let mut items: Vec<String> = Vec::new();
        core::mem::swap(&mut items, &mut self.items);
        items.insert(i, k);
        proof {
            assert(Seq::new(items@.len(), |x: int| items@[x]@) =~= s.insert(i as int, k@));
        }
        self.items = items;
        true
    }
}

/// An edge key sequence is strictly sorted.
pub open spec fn ekset_wf(s: Seq<EdgeKeyView>) -> bool {
    forall|i: int, j: int| 0 <= i < j < s.len() ==> edge_key_lt(s[i], s[j])
}

/// A scan position that passed every smaller member and stops below the
/// member at the position decides absence.
proof fn lemma_ekset_absent(s: Seq<EdgeKeyView>, k: EdgeKeyView, i: int)
    requires
        ekset_wf(s),
        0 <= i <= s.len(),
        forall|j: int| 0 <= j < i ==> edge_key_lt(s[j], k),
        i == s.len() || edge_key_lt(k, s[i]),
    ensures
        !s.contains(k),
{
    if s.contains(k) {
        let j = choose|j: int| 0 <= j < s.len() && s[j] == k;
        lemma_edge_key_lt_trichotomy(s[j], k);
        if j >= i {
            assert(i < s.len());
            if j > i {
                assert(edge_key_lt(s[i as int], s[j]));
                lemma_edge_key_lt_trans(k, s[i as int], s[j]);
            }
            lemma_edge_key_lt_trichotomy(k, s[j]);
        }
    }
}

/// Inserting a fresh member at its sorted position keeps the sequence
/// sorted and adds exactly that member.
proof fn lemma_ekset_insert(s: Seq<EdgeKeyView>, k: EdgeKeyView, i: int)
    requires
        ekset_wf(s),
        0 <= i <= s.len(),
        forall|j: int| 0 <= j < i ==> edge_key_lt(s[j], k),
        i == s.len() || edge_key_lt(k, s[i]),
    ensures
        ekset_wf(s.insert(i, k)),
        forall|q: EdgeKeyView| #[trigger] s.insert(i, k).contains(q) <==> s.contains(q) || q == k,
{
    let r = s.insert(i, k);
    assert forall|x: int, y: int| 0 <= x < y < r.len() implies edge_key_lt(r[x], r[y]) by {
        if x < i && y == i {
            assert(r[x] == s[x]);
        } else if x == i && y > i {
            assert(r[y] == s[y - 1]);
            if i < s.len() && y - 1 > i {
                assert(edge_key_lt(s[i as int], s[y - 1]));
                lemma_edge_key_lt_trans(k, s[i as int], s[y - 1]);
            }
        } else if x < i && y > i {
            assert(r[x] == s[x]);
            assert(r[y] == s[y - 1]);
            if y - 1 == x {
                assert(false);
            }
        } else if y < i {
            assert(r[x] == s[x]);
            assert(r[y] == s[y]);
        } else if x > i {
            assert(r[x] == s[x - 1]);
            assert(r[y] == s[y - 1]);
        }
    }
    assert forall|q: EdgeKeyView| #[trigger] r.contains(q) <==> s.contains(q) || q == k by {
        if s.contains(q) {
            let j = choose|j: int| 0 <= j < s.len() && s[j] == q;
            if j < i {
                assert(r[j] == q);
            } else {
                assert(r[j + 1] == q);
            }
            assert(r.contains(q));
        }
        assert(r[i] == k);
        assert(r.contains(k));
        if r.contains(q) && q != k {
            let j = choose|j: int| 0 <= j < r.len() && r[j] == q;
            if j < i {
                assert(s[j] == q);
            } else {
                assert(j != i);
                assert(s[j - 1] == q);
            }
            assert(s.contains(q));
        }
    }
}

/// The sorted form is canonical: two sorted member sequences with the
/// same members are equal, so a content-level contract pins the sequence.
pub proof fn lemma_ekset_canonical(x: Seq<EdgeKeyView>, y: Seq<EdgeKeyView>)
    requires
        ekset_wf(x),
        ekset_wf(y),
        forall|q: EdgeKeyView| #[trigger] x.contains(q) <==> y.contains(q),
    ensures
        x == y,
    decreases x.len(),
{
    if x.len() == 0 {
        if y.len() != 0 {
            assert(y.contains(y[0]));
            assert(x.contains(y[0]));
        }
        assert(x =~= y);
    } else {
        assert(x.contains(x[0]));
        assert(y.contains(x[0]));
        assert(y.len() != 0);
        // the heads are the least members
        assert(x[0] == y[0]) by {
            lemma_edge_key_lt_trichotomy(x[0], y[0]);
            if edge_key_lt(x[0], y[0]) {
                let j = choose|j: int| 0 <= j < y.len() && y[j] == x[0];
                if j > 0 {
                    assert(edge_key_lt(y[0], y[j]));
                    lemma_edge_key_lt_trans(x[0], y[0], y[j]);
                }
                lemma_edge_key_lt_trichotomy(x[0], y[j]);
            } else if edge_key_lt(y[0], x[0]) {
                assert(y.contains(y[0]));
                assert(x.contains(y[0]));
                let j = choose|j: int| 0 <= j < x.len() && x[j] == y[0];
                if j > 0 {
                    assert(edge_key_lt(x[0], x[j]));
                    lemma_edge_key_lt_trans(y[0], x[0], x[j]);
                }
                lemma_edge_key_lt_trichotomy(y[0], x[j]);
            }
        }
        let xt = x.drop_first();
        let yt = y.drop_first();
        assert forall|i: int, j: int| 0 <= i < j < xt.len() implies edge_key_lt(xt[i], xt[j]) by {
            assert(xt[i] == x[i + 1]);
            assert(xt[j] == x[j + 1]);
        }
        assert forall|i: int, j: int| 0 <= i < j < yt.len() implies edge_key_lt(yt[i], yt[j]) by {
            assert(yt[i] == y[i + 1]);
            assert(yt[j] == y[j + 1]);
        }
        assert forall|q: EdgeKeyView| true implies #[trigger] xt.contains(q) == (x.contains(q) && q
            != x[0]) by {
            lemma_ekset_tail_contains(x, q);
        }
        assert forall|q: EdgeKeyView| true implies #[trigger] yt.contains(q) == (y.contains(q) && q
            != y[0]) by {
            lemma_ekset_tail_contains(y, q);
        }
        assert forall|q: EdgeKeyView| #[trigger] xt.contains(q) implies yt.contains(q) by {
            assert(x.contains(q));
        }
        assert forall|q: EdgeKeyView| #[trigger] yt.contains(q) implies xt.contains(q) by {
            assert(y.contains(q));
        }
        lemma_ekset_canonical(xt, yt);
        assert(x =~= y) by {
            assert forall|k: int| 0 <= k < x.len() implies x[k] == y[k] by {
                if k > 0 {
                    assert(x[k] == xt[k - 1]);
                    assert(y[k] == yt[k - 1]);
                }
            }
        }
    }
}

/// The head does not recur in the tail, and every other member of the
/// whole sequence appears there.
proof fn lemma_ekset_tail_contains(s: Seq<EdgeKeyView>, q: EdgeKeyView)
    requires
        ekset_wf(s),
        s.len() != 0,
    ensures
        s.drop_first().contains(q) == (s.contains(q) && q != s[0]),
{
    let t = s.drop_first();
    if t.contains(q) {
        let j = choose|j: int| 0 <= j < t.len() && t[j] == q;
        assert(t[j] == s[j + 1]);
        assert(s.contains(q));
        assert(edge_key_lt(s[0], s[j + 1]));
        lemma_edge_key_lt_trichotomy(s[0], s[j + 1]);
    }
    if s.contains(q) && q != s[0] {
        let j = choose|j: int| 0 <= j < s.len() && s[j] == q;
        assert(j != 0);
        assert(t[j - 1] == s[j]);
        assert(t.contains(q));
    }
}

/// Grow-only set of edge keys, sorted ascending.
pub struct EdgeKeySet {
    items: Vec<EdgeKey>,
}

impl View for EdgeKeySet {
    type V = Seq<EdgeKeyView>;

    closed spec fn view(&self) -> Seq<EdgeKeyView> {
        Seq::new(self.items@.len(), |i: int| self.items@[i]@)
    }
}

impl EdgeKeySet {
    /// The sorted-unique representation invariant: it holds of every
    /// reachable value of the type.
    #[verifier::type_invariant]
    pub open spec fn wf(self) -> bool {
        ekset_wf(self@)
    }

    /// The empty set.
    pub fn new() -> (r: Self)
        ensures
            r@ == Seq::<EdgeKeyView>::empty(),
    {
        let r = EdgeKeySet { items: Vec::new() };
        proof {
            assert(r@ =~= Seq::<EdgeKeyView>::empty());
        }
        r
    }

    /// Number of members.
    pub fn len(&self) -> (r: usize)
        ensures
            r == self@.len(),
    {
        self.items.len()
    }

    /// The member at the given position, ascending.
    pub fn get(&self, i: usize) -> (r: &EdgeKey)
        requires
            i < self@.len(),
        ensures
            r@ == self@[i as int],
    {
        &self.items[i]
    }

    /// Where the member sits, or where it would be inserted.
    fn locate(&self, k: &EdgeKey) -> (r: (usize, bool))
        ensures
            ekset_wf(self@),
            r.0 <= self@.len(),
            forall|j: int| 0 <= j < r.0 ==> edge_key_lt(self@[j], k@),
            r.1 ==> r.0 < self@.len() && self@[r.0 as int] == k@,
            !r.1 ==> (r.0 == self@.len() || edge_key_lt(k@, self@[r.0 as int])),
            r.1 == self@.contains(k@),
    {
        proof {
            use_type_invariant(&*self);
        }
        let ghost s = self@;
        let n = self.items.len();
        let mut i: usize = 0;
        let mut found = false;
        loop
            invariant_except_break
                !found,
            invariant
                n == s.len(),
                self@ == s,
                ekset_wf(s),
                self.items@.len() == s.len(),
                forall|x: int| 0 <= x < s.len() ==> self.items@[x]@ == s[x],
                i <= n,
                forall|j: int| 0 <= j < i ==> edge_key_lt(s[j], k@),
            ensures
                i <= s.len(),
                forall|j: int| 0 <= j < i ==> edge_key_lt(s[j], k@),
                found ==> i < s.len() && s[i as int] == k@,
                !found ==> i == s.len() || edge_key_lt(k@, s[i as int]),
            decreases n - i,
        {
            if i == n {
                break ;
            }
            match edge_key_cmp(&self.items[i], k) {
                Ordering::Less => {
                    i = i + 1;
                },
                Ordering::Equal => {
                    found = true;
                    break ;
                },
                Ordering::Greater => {
                    break ;
                },
            }
        }
        proof {
            if !found {
                lemma_ekset_absent(s, k@, i as int);
            }
        }
        (i, found)
    }

    /// Whether the member is in the set.
    pub fn contains(&self, k: &EdgeKey) -> (r: bool)
        ensures
            r == self@.contains(k@),
    {
        let (_, found) = self.locate(k);
        found
    }

    /// Add a member; returns whether the set changed.  The set only ever
    /// grows: every old member is kept.
    pub fn insert(&mut self, k: EdgeKey) -> (added: bool)
        ensures
            ekset_wf(final(self)@),
            added == !old(self)@.contains(k@),
            forall|q: EdgeKeyView|
                #[trigger] final(self)@.contains(q) <==> old(self)@.contains(q) || q == k@,
            !added ==> final(self)@ == old(self)@,
    {
        proof {
            use_type_invariant(&*self);
        }
        let ghost s = self@;
        let (i, found) = self.locate(&k);
        if found {
            return false;
        }
        proof {
            lemma_ekset_insert(s, k@, i as int);
        }
        let mut items: Vec<EdgeKey> = Vec::new();
        core::mem::swap(&mut items, &mut self.items);
        items.insert(i, k);
        proof {
            assert(Seq::new(items@.len(), |x: int| items@[x]@) =~= s.insert(i as int, k@));
        }
        self.items = items;
        true
    }
}

} // verus!

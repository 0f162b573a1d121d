//! The primitive lattice cells.
//!
//! * First-write-wins cell: carries *empty*, a single value, or *conflict*.
//!   Merging two distinct values yields the conflict marker; the conflict
//!   marker absorbs everything.
//! * Monotone boolean cell: merge keeps the logical AND, so `false` is
//!   absorbing.
//!
//! Every cell's merge is associative, commutative and idempotent, and
//! returns `true` exactly when the revealed state changed; the laws are
//! stated and proved over the ghost model [`CellVal`] once, generically.

use crate::node_type::NodeType;
use vstd::prelude::*;

verus! {

/// Ghost model of a first-write-wins cell over values of type `A`.
pub ghost enum CellVal<A> {
    /// No value has been written yet.
    Empty,
    /// Exactly one value has been observed.
    Value(A),
    /// Two distinct values were observed: the conflict marker.
    Conflict,
}

/// Merge of first-write-wins cells.
pub open spec fn fww_merge<A>(a: CellVal<A>, b: CellVal<A>) -> CellVal<A> {
    match (a, b) {
        (CellVal::Conflict, _) => CellVal::Conflict,
        (_, CellVal::Conflict) => CellVal::Conflict,
        (CellVal::Empty, x) => x,
        (x, CellVal::Empty) => x,
        (CellVal::Value(v), CellVal::Value(w)) => if v == w {
            CellVal::Value(v)
        } else {
            CellVal::Conflict
        },
    }
}

/// The changed flag a first-write-wins merge reports.
pub open spec fn fww_changed<A>(a: CellVal<A>, b: CellVal<A>) -> bool {
    fww_merge(a, b) != a
}

/// Merge of monotone booleans: the logical AND.
pub open spec fn bool_merge(a: bool, b: bool) -> bool {
    a && b
}

/// First-write-wins merge is associative.
pub proof fn lemma_fww_merge_associative<A>(a: CellVal<A>, b: CellVal<A>, c: CellVal<A>)
    ensures
        fww_merge(fww_merge(a, b), c) == fww_merge(a, fww_merge(b, c)),
{
}

/// First-write-wins merge is commutative.
pub proof fn lemma_fww_merge_commutative<A>(a: CellVal<A>, b: CellVal<A>)
    ensures
        fww_merge(a, b) == fww_merge(b, a),
{
}

/// First-write-wins merge is idempotent, and an idempotent merge reports
/// no change.
pub proof fn lemma_fww_merge_idempotent<A>(a: CellVal<A>)
    ensures
        fww_merge(a, a) == a,
        !fww_changed(a, a),
{
}

/// Monotone-boolean merge is associative, commutative and idempotent.
pub proof fn lemma_bool_merge_laws(a: bool, b: bool, c: bool)
    ensures
        bool_merge(bool_merge(a, b), c) == bool_merge(a, bool_merge(b, c)),
        bool_merge(a, b) == bool_merge(b, a),
        bool_merge(a, a) == a,
{
}

/// Once a monotone boolean is `false`, merging any boolean leaves it
/// `false`.
pub proof fn lemma_bool_merge_false_absorbs(b: bool)
    ensures
        bool_merge(false, b) == false,
{
}

/// First-write-wins cell over the node type.
pub enum TypeCell {
    Empty,
    Value(NodeType),
    Conflict,
}

impl View for TypeCell {
    type V = CellVal<NodeType>;

    open spec fn view(&self) -> CellVal<NodeType> {
        match *self {
            TypeCell::Empty => CellVal::Empty,
            TypeCell::Value(v) => CellVal::Value(v),
            TypeCell::Conflict => CellVal::Conflict,
        }
    }
}

impl TypeCell {
    /// A cell holding the given value.
    pub fn new(value: NodeType) -> (r: Self)
        ensures
            r@ == CellVal::Value(value),
    {
        TypeCell::Value(value)
    }

    /// Whether the cell is the conflict marker.
    pub fn is_conflict(&self) -> (r: bool)
        ensures
            r == (self@ is Conflict),
    {
        matches!(*self, TypeCell::Conflict)
    }

    /// The held value, or nothing if the cell is empty or in conflict.
    pub fn value(&self) -> (r: Option<NodeType>)
        ensures
            match self@ {
                CellVal::Value(v) => r == Some(v),
                _ => r is None,
            },
    {
        match *self {
            TypeCell::Value(v) => Some(v),
            _ => None,
        }
    }

    /// First-write-wins merge; returns whether the cell changed.
    pub fn merge(&mut self, other: TypeCell) -> (changed: bool)
        ensures
            final(self)@ == fww_merge(old(self)@, other@),
            changed == fww_changed(old(self)@, other@),
    {
        let next = match (&*self, &other) {
            (TypeCell::Conflict, _) => TypeCell::Conflict,
            (_, TypeCell::Conflict) => TypeCell::Conflict,
            (TypeCell::Empty, _) => other,
            (_, TypeCell::Empty) => return false,
            (TypeCell::Value(v), TypeCell::Value(w)) => if *v == *w {
                return false;
            } else {
                TypeCell::Conflict
            },
        };
        let changed = match (&*self, &next) {
            (TypeCell::Empty, TypeCell::Empty) => false,
            (TypeCell::Conflict, _) => false,
            _ => true,
        };
        *self = next;
        changed
    }

    /// A copy of the cell.
    pub fn duplicate(&self) -> (r: Self)
        ensures
            r@ == self@,
    {
        match *self {
            TypeCell::Empty => TypeCell::Empty,
            TypeCell::Value(v) => TypeCell::Value(v),
            TypeCell::Conflict => TypeCell::Conflict,
        }
    }
}

/// First-write-wins cell over the node label.
pub enum LabelCell {
    Empty,
    Value(String),
    Conflict,
}

impl View for LabelCell {
    type V = CellVal<Seq<char>>;

    open spec fn view(&self) -> CellVal<Seq<char>> {
        match self {
            LabelCell::Empty => CellVal::Empty,
            LabelCell::Value(v) => CellVal::Value(v@),
            LabelCell::Conflict => CellVal::Conflict,
        }
    }
}

impl LabelCell {
    /// A cell holding the given label.
    pub fn new(value: String) -> (r: Self)
        ensures
            r@ == CellVal::Value(value@),
    {
        LabelCell::Value(value)
    }

    /// Whether the cell is the conflict marker.
    pub fn is_conflict(&self) -> (r: bool)
        ensures
            r == (self@ is Conflict),
    {
        matches!(*self, LabelCell::Conflict)
    }

    /// The held label, or nothing if the cell is empty or in conflict.
    pub fn value(&self) -> (r: Option<&String>)
        ensures
            match self@ {
                CellVal::Value(v) => r is Some && r->0@ == v,
                _ => r is None,
            },
    {
        match self {
            LabelCell::Value(v) => Some(v),
            _ => None,
        }
    }

    /// First-write-wins merge; returns whether the cell changed.
    pub fn merge(&mut self, other: LabelCell) -> (changed: bool)
        ensures
            final(self)@ == fww_merge(old(self)@, other@),
            changed == fww_changed(old(self)@, other@),
    {
        match (&*self, &other) {
            (LabelCell::Conflict, _) => false,
            (_, LabelCell::Conflict) => {
                let changed = !matches!(*self, LabelCell::Conflict);
                *self = LabelCell::Conflict;
                changed
            },
            (LabelCell::Empty, LabelCell::Empty) => false,
            (LabelCell::Empty, LabelCell::Value(_)) => {
                *self = other;
                true
            },
            (LabelCell::Value(_), LabelCell::Empty) => false,
            (LabelCell::Value(v), LabelCell::Value(w)) => {
                if *v == *w {
                    false
                } else {
                    *self = LabelCell::Conflict;
                    true
                }
            },
        }
    }

    /// A copy of the cell.
    pub fn duplicate(&self) -> (r: Self)
        ensures
            r@ == self@,
    {
        match self {
            LabelCell::Empty => LabelCell::Empty,
            LabelCell::Value(v) => LabelCell::Value(v.clone()),
            LabelCell::Conflict => LabelCell::Conflict,
        }
    }
}

/// Monotone boolean cell: `false` (confirmed) absorbs `true`
/// (hypothetical).  A freshly allocated cell holds `true`.
pub struct MonotoneBool {
    value: bool,
}

impl View for MonotoneBool {
    type V = bool;

    closed spec fn view(&self) -> bool {
        self.value
    }
}

impl MonotoneBool {
    /// A cell holding the given boolean.
    pub fn new(value: bool) -> (r: Self)
        ensures
            r@ == value,
    {
        MonotoneBool { value }
    }

    /// The current boolean.
    pub fn get(&self) -> (r: bool)
        ensures
            r == self@,
    {
        self.value
    }

    /// Merge keeps the logical AND; returns whether the cell changed,
    /// which happens only when the incoming value is `false` and the
    /// current one is `true`.
    pub fn merge(&mut self, other: MonotoneBool) -> (changed: bool)
        ensures
            final(self)@ == bool_merge(old(self)@, other@),
            changed == (old(self)@ && !other@),
    {
        let changed = self.value && !other.value;
        self.value = self.value && other.value;
        changed
    }

    /// A copy of the cell.
    pub fn duplicate(&self) -> (r: Self)
        ensures
            r@ == self@,
    {
        MonotoneBool { value: self.value }
    }
}

impl Default for MonotoneBool {
    /// A fresh cell is hypothetical: it holds `true`.
    fn default() -> (r: Self)
        ensures
            r@ == true,
    {
        MonotoneBool { value: true }
    }
}

} // verus!

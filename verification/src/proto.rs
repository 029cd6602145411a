use vstd::prelude::*;
use vstd::relations::{sorted_by, total_ordering};
use vstd::seq_lib::{lemma_multiset_commutative, lemma_sorted_unique};
use vstd::multiset::Multiset;
use crate::order::{lex_lt, bytes_cmp, Rel, lemma_lex_lt_trichotomy, lemma_lex_lt_transitive};

pub mod client;
pub mod server;

verus! {

/// Globally unique, strictly increasing sequence number identifying one entry.
/// Assigned by the message buffer at push time and never reused.
#[derive(Debug, Clone, Copy, PartialEq, Eq, PartialOrd, Ord, Hash, Structural)]
pub struct MessageId(pub usize);

/// A predicate on one field of a structured entry: presence of a key, or an
/// exact key/value match. Field names and values are byte strings.
#[derive(Debug, Clone, PartialEq, Eq, Hash)]
pub enum FieldCondition {
    HasKey(Vec<u8>),
    KeyValue(Vec<u8>, Vec<u8>),
}

/// The mathematical shape of a field condition: whether it constrains the
/// value, the key, and the expected value (empty for a bare key test).
pub type CondRepr = (bool, Seq<u8>, Seq<u8>);

impl View for FieldCondition {
    type V = CondRepr;

    open spec fn view(&self) -> CondRepr {
        match self {
            FieldCondition::HasKey(k) => (false, k@, Seq::empty()),
            FieldCondition::KeyValue(k, v) => (true, k@, v@),
        }
    }
}

impl FieldCondition {
    /// The field name this condition constrains.
    pub fn key(&self) -> (k: &Vec<u8>)
        ensures
            k@ == self@.1,
    {
        match self {
            FieldCondition::HasKey(k) => k,
            FieldCondition::KeyValue(k, _) => k,
        }
    }
}

/// Canonical order of field conditions: primarily by field name, then a bare
/// key test before a key/value test on the same name, then by expected value.
pub open spec fn cond_le(a: CondRepr, b: CondRepr) -> bool {
    ||| lex_lt(a.1, b.1)
    ||| (a.1 == b.1 && ((!a.0 && b.0) || (a.0 == b.0 && (lex_lt(a.2, b.2) || a.2 == b.2))))
}

/// `cond_le` as a first-class relation, for use with vstd's sorting theory.
pub open spec fn cond_order() -> spec_fn(CondRepr, CondRepr) -> bool {
    |a: CondRepr, b: CondRepr| cond_le(a, b)
}

/// `cond_le` is a total order on condition shapes.
pub proof fn lemma_cond_le_total_ordering()
    ensures
        total_ordering(cond_order()),
{
    let r = cond_order();
    assert forall|x: CondRepr| #[trigger] r(x, x) by {
        lemma_lex_lt_trichotomy(x.1, x.1);
    }
    assert forall|x: CondRepr, y: CondRepr| #[trigger] r(x, y) && #[trigger] r(y, x) implies x == y by {
        lemma_lex_lt_trichotomy(x.1, y.1);
        lemma_lex_lt_trichotomy(x.2, y.2);
    }
    assert forall|x: CondRepr, y: CondRepr, z: CondRepr|
        #[trigger] r(x, y) && #[trigger] r(y, z) implies r(x, z) by {
        lemma_lex_lt_transitive(x.1, y.1, z.1);
        lemma_lex_lt_transitive(x.2, y.2, z.2);
    }
    assert forall|x: CondRepr, y: CondRepr| #[trigger] r(x, y) || #[trigger] r(y, x) by {
        lemma_lex_lt_trichotomy(x.1, y.1);
        lemma_lex_lt_trichotomy(x.2, y.2);
    }
}

/// The shapes of a sequence of conditions.
pub open spec fn conds_view(s: Seq<FieldCondition>) -> Seq<CondRepr> {
    s.map_values(|c: FieldCondition| c@)
}

/// Decides the canonical order between two conditions.
pub fn cond_le_exec(a: &FieldCondition, b: &FieldCondition) -> (r: bool)
    ensures
        r == cond_le(a@, b@),
{
    match bytes_cmp(a.key(), b.key()) {
        Rel::Less => true,
        Rel::Greater => false,
        Rel::Equal => match (a, b) {
            (FieldCondition::HasKey(_), _) => true,
            (FieldCondition::KeyValue(_, _), FieldCondition::HasKey(_)) => false,
            (FieldCondition::KeyValue(_, va), FieldCondition::KeyValue(_, vb)) => {
                match bytes_cmp(va, vb) {
                    Rel::Greater => false,
                    _ => true,
                }
            },
        },
    }
}

/// Decides whether two conditions have the same shape.
pub fn cond_eq_exec(a: &FieldCondition, b: &FieldCondition) -> (r: bool)
    ensures
        r == (a@ == b@),
{
    match (a, b) {
        (FieldCondition::HasKey(ka), FieldCondition::HasKey(kb)) => {
            matches!(bytes_cmp(ka, kb), Rel::Equal)
        },
        (FieldCondition::KeyValue(ka, va), FieldCondition::KeyValue(kb, vb)) => {
            matches!(bytes_cmp(ka, kb), Rel::Equal) && matches!(bytes_cmp(va, vb), Rel::Equal)
        },
        _ => false,
    }
}

/// Copies a byte string.
pub fn clone_bytes(v: &Vec<u8>) -> (r: Vec<u8>)
    ensures
        r@ == v@,
{
    let r = v.clone();
    proof {
        assert(r@ =~= v@);
    }
    r
}

/// Copies a condition, preserving its shape.
pub fn clone_condition(c: &FieldCondition) -> (r: FieldCondition)
    ensures
        r@ == c@,
{
    match c {
        FieldCondition::HasKey(k) => FieldCondition::HasKey(clone_bytes(k)),
        FieldCondition::KeyValue(k, v) => {
            FieldCondition::KeyValue(clone_bytes(k), clone_bytes(v))
        },
    }
}

/// The identity of a secondary index: a canonically sorted sequence of field
/// conditions. Two methods denote the same index exactly when their sorted
/// condition sequences are equal.
#[derive(Debug, Clone, PartialEq, Eq, Hash)]
pub struct IndexMethod {
    pub conditions: Vec<FieldCondition>,
}

impl View for IndexMethod {
    type V = Seq<CondRepr>;

    open spec fn view(&self) -> Seq<CondRepr> {
        conds_view(self.conditions@)
    }
}

/// Moving one element from the front of a condition list to a sorted position
/// of another preserves the combined multiset of shapes.
proof fn lemma_conds_view_remove_first(s: Seq<FieldCondition>)
    requires
        s.len() > 0,
    ensures
        conds_view(s.remove(0)).to_multiset() =~= conds_view(s).to_multiset().remove(s[0]@),
{
    broadcast use vstd::seq_lib::group_to_multiset_ensures;

    assert(conds_view(s.remove(0)) =~= conds_view(s).remove(0));
    assert(conds_view(s)[0] == s[0]@);
}

/// Inserting into a sequence inserts into its multiset.
proof fn lemma_to_multiset_insert(s: Seq<CondRepr>, i: int, x: CondRepr)
    requires
        0 <= i <= s.len(),
    ensures
        s.insert(i, x).to_multiset() =~= s.to_multiset().insert(x),
{
    broadcast use vstd::seq_lib::group_to_multiset_ensures;
    broadcast use vstd::multiset::group_multiset_axioms;

    let s0 = s.subrange(0, i);
    let s1 = s.subrange(i, s.len() as int);
    assert(s =~= s0 + s1);
    lemma_multiset_commutative(s0, s1);
    lemma_multiset_commutative(s0.push(x), s1);
    assert(s0.push(x).to_multiset() =~= s0.to_multiset().insert(x));
}

impl IndexMethod {
    /// Well-formed: the conditions stand in canonical order.
    pub open spec fn wf(&self) -> bool {
        sorted_by(self@, cond_order())
    }

    /// Builds an index method by sorting the given conditions into canonical
    /// order. The result holds exactly the given conditions.
    pub fn new(units: Vec<FieldCondition>) -> (r: IndexMethod)
        ensures
            r.wf(),
            r@.to_multiset() == conds_view(units@).to_multiset(),
    {
        proof {
            lemma_cond_le_total_ordering();
        }
        let ghost units0: Seq<CondRepr> = conds_view(units@);
        let mut rest = units;
        let mut sorted: Vec<FieldCondition> = Vec::new();
        proof {
            broadcast use vstd::multiset::group_multiset_axioms;
            broadcast use vstd::seq_lib::group_to_multiset_ensures;

            assert(conds_view(sorted@) =~= Seq::empty());
            assert(conds_view(sorted@).to_multiset().add(conds_view(rest@).to_multiset())
                =~= units0.to_multiset());
        }
        while rest.len() > 0
            invariant
                sorted_by(conds_view(sorted@), cond_order()),
                conds_view(sorted@).to_multiset().add(conds_view(rest@).to_multiset())
                    == units0.to_multiset(),
                total_ordering(cond_order()),
            decreases rest.len(),
        {
            let ghost rest_before = rest@;
            let ghost sorted_before = sorted@;
            let u = rest.remove(0);
            let mut j: usize = 0;
            while j < sorted.len() && cond_le_exec(&sorted[j], &u)
                invariant
                    j <= sorted.len(),
                    sorted@ == sorted_before,
                    forall|p: int| 0 <= p < j ==> cond_le(#[trigger] conds_view(sorted@)[p], u@),
                decreases sorted.len() - j,
            {
                assert(cond_le(conds_view(sorted@)[j as int], u@));
                j = j + 1;
            }
            proof {
                broadcast use vstd::multiset::group_multiset_axioms;
                broadcast use vstd::seq_lib::group_to_multiset_ensures;

                let cv = conds_view(sorted@);
                // every element at or past j is at least u
                assert forall|q: int| j <= q < cv.len() implies cond_le(u@, #[trigger] cv[q]) by {
                    assert(!cond_le(cv[j as int], u@));
                    lemma_lex_lt_trichotomy(u@.1, cv[j as int].1);
                    lemma_lex_lt_trichotomy(u@.2, cv[j as int].2);
                    assert(cond_le(u@, cv[j as int]));
                    if q > j {
                        assert(cond_order()(cv[j as int], cv[q]));
                        lemma_lex_lt_transitive(u@.1, cv[j as int].1, cv[q].1);
                        lemma_lex_lt_transitive(u@.2, cv[j as int].2, cv[q].2);
                    }
                }
                lemma_conds_view_remove_first(rest_before);
                lemma_to_multiset_insert(cv, j as int, u@);
                assert(conds_view(rest_before)[0] == u@);
                assert(conds_view(rest_before).to_multiset().contains(u@));
            }
            sorted.insert(j, u);
            proof {
                broadcast use vstd::multiset::group_multiset_axioms;

                assert(conds_view(sorted@) =~= conds_view(sorted_before).insert(j as int, u@));
                let before = conds_view(sorted_before);
                let after = conds_view(sorted@);
                before.insert_ensures(j as int, u@);
                assert forall|p: int, q: int| 0 <= p < q < after.len()
                    implies cond_order()(after[p], after[q]) by {
                    if q < j {
                        assert(cond_order()(before[p], before[q]));
                    } else if p < j && q == j {
                        assert(cond_le(before[p], u@));
                    } else if p < j && q > j {
                        assert(cond_order()(before[p], before[q - 1]));
                    } else if p == j {
                        assert(cond_le(u@, before[q - 1]));
                    } else {
                        assert(cond_order()(before[p - 1], before[q - 1]));
                    }
                    assert(cond_le(after[p], after[q]));
                }
                assert(sorted_by(after, cond_order()));
                assert(after.to_multiset().add(conds_view(rest@).to_multiset())
                    =~= units0.to_multiset());
            }
        }
        proof {
            broadcast use vstd::multiset::group_multiset_axioms;
            broadcast use vstd::seq_lib::group_to_multiset_ensures;

            assert(conds_view(rest@) =~= Seq::empty());
            assert(conds_view(sorted@).to_multiset().add(conds_view(rest@).to_multiset())
                =~= conds_view(sorted@).to_multiset());
        }
        IndexMethod { conditions: sorted }
    }
}

/// Decides whether two index methods denote the same index: their condition
/// sequences agree shape for shape.
pub fn method_eq(a: &IndexMethod, b: &IndexMethod) -> (r: bool)
    ensures
        r == (a@ == b@),
{
    if a.conditions.len() != b.conditions.len() {
        return false;
    }
    let mut i: usize = 0;
    while i < a.conditions.len()
        invariant
            i <= a.conditions@.len(),
            a.conditions@.len() == b.conditions@.len(),
            a@.len() == a.conditions@.len(),
            b@.len() == b.conditions@.len(),
            forall|p: int| 0 <= p < i ==> a@[p] == b@[p],
        decreases a.conditions@.len() - i,
    {
        if !cond_eq_exec(&a.conditions[i], &b.conditions[i]) {
            proof {
                assert(a@[i as int] != b@[i as int]);
            }
            return false;
        }
        i = i + 1;
    }
    proof {
        assert(a@ =~= b@);
    }
    true
}

/// Copies an index method, preserving its identity.
pub fn clone_method(m: &IndexMethod) -> (r: IndexMethod)
    ensures
        r@ == m@,
{
    let mut conditions: Vec<FieldCondition> = Vec::new();
    let mut i: usize = 0;
    while i < m.conditions.len()
        invariant
            i <= m.conditions@.len(),
            conditions@.len() == i,
            forall|p: int| 0 <= p < i
                ==> #[trigger] conds_view(conditions@)[p] == conds_view(m.conditions@)[p],
        decreases m.conditions@.len() - i,
    {
        let ghost before = conditions@;
        let c = clone_condition(&m.conditions[i]);
        let ghost cv = c@;
        conditions.push(c);
        proof {
            assert forall|p: int| 0 <= p < i + 1
                implies #[trigger] conds_view(conditions@)[p] == conds_view(m.conditions@)[p] by {
                if p < i {
                    assert(conditions@[p] == before[p]);
                    assert(conds_view(before)[p] == conds_view(m.conditions@)[p]);
                } else {
                    assert(conditions@[p]@ == cv);
                    assert(cv == m.conditions@[i as int]@);
                }
            }
        }
        i = i + 1;
    }
    let r = IndexMethod { conditions };
    proof {
        assert(r@ =~= m@);
    }
    r
}

/// Canonical form is deterministic: sorted condition sequences with the same
/// conditions are equal, so index methods built from permuted condition lists
/// coincide.
pub proof fn lemma_sorted_conditions_unique(a: Seq<CondRepr>, b: Seq<CondRepr>)
    requires
        sorted_by(a, cond_order()),
        sorted_by(b, cond_order()),
        a.to_multiset() == b.to_multiset(),
    ensures
        a == b,
{
    lemma_cond_le_total_ordering();
    lemma_sorted_unique(a, b, cond_order());
}

/// One structured field: a name and a value, both byte strings.
pub type Field = (Vec<u8>, Vec<u8>);

/// The mathematical shape of a field.
pub type FieldRepr = (Seq<u8>, Seq<u8>);

/// The shapes of a sequence of fields.
pub open spec fn fields_view(s: Seq<Field>) -> Seq<FieldRepr> {
    s.map_values(|f: Field| (f.0@, f.1@))
}

/// Field lists of structured entries carry their names strictly ascending,
/// hence unique. This is an input invariant established at decode time.
pub open spec fn fields_sorted(fs: Seq<FieldRepr>) -> bool {
    forall|i: int, j: int| 0 <= i < j < fs.len() ==> lex_lt(#[trigger] fs[i].0, #[trigger] fs[j].0)
}

/// A structured entry: field/value pairs sorted ascending by field name.
#[derive(Debug, Clone, PartialEq, Eq)]
pub struct JsonEntry(pub Vec<Field>);

impl View for JsonEntry {
    type V = Seq<FieldRepr>;

    open spec fn view(&self) -> Seq<FieldRepr> {
        fields_view(self.0@)
    }
}

impl JsonEntry {
    pub open spec fn wf(&self) -> bool {
        fields_sorted(self@)
    }
}

/// An unstructured entry: the raw bytes of one line.
#[derive(Debug, Clone, PartialEq, Eq)]
pub struct RawEntry(pub Vec<u8>);

impl View for RawEntry {
    type V = Seq<u8>;

    open spec fn view(&self) -> Seq<u8> {
        self.0@
    }
}

/// One ingested log line: either structured or opaque. Immutable once built.
#[derive(Debug, Clone, PartialEq, Eq)]
pub enum Entry {
    Json(JsonEntry),
    Raw(RawEntry),
}

impl Entry {
    /// Whether this entry is structured.
    pub open spec fn is_json(&self) -> bool {
        matches!(self, Entry::Json(_))
    }

    /// The fields of a structured entry.
    pub open spec fn fields(&self) -> Seq<FieldRepr>
        recommends
            self.is_json(),
    {
        match self {
            Entry::Json(e) => e@,
            Entry::Raw(_) => Seq::empty(),
        }
    }

    /// The payload of an opaque entry.
    pub open spec fn raw_bytes(&self) -> Seq<u8>
        recommends
            !self.is_json(),
    {
        match self {
            Entry::Json(_) => Seq::empty(),
            Entry::Raw(r) => r@,
        }
    }

    /// Well-formed: a structured entry's fields are sorted and unique by name.
    pub open spec fn wf(&self) -> bool {
        self.is_json() ==> fields_sorted(self.fields())
    }
}

} // verus!

//! The values that rules and operations are written with, and rules as
//! key-ordered sets of fields.
use vstd::prelude::*;

use crate::text::chars_of;

verus! {

/// A value in a rule or an operation: one string, a list of strings, or a
/// flag.
#[derive(Debug)]
pub enum Value {
    Single(String),
    Multiple(Vec<String>),
    Bool(bool),
}

/// What a `Value` holds, as mathematical text.
pub enum ValueModel {
    Single(Seq<char>),
    Multiple(Seq<Seq<char>>),
    Bool(bool),
}

pub open spec fn texts_of(v: Seq<String>) -> Seq<Seq<char>> {
    v.map_values(|s: String| s@)
}

impl View for Value {
    type V = ValueModel;

    open spec fn view(&self) -> ValueModel {
        match self {
            Value::Single(s) => ValueModel::Single(s@),
            Value::Multiple(v) => ValueModel::Multiple(texts_of(v@)),
            Value::Bool(b) => ValueModel::Bool(*b),
        }
    }
}

/// Lexicographic order on keys, character by character.
pub open spec fn key_lt(a: Seq<char>, b: Seq<char>) -> bool
    decreases a.len(),
{
    if a.len() == 0 {
        b.len() > 0
    } else if b.len() == 0 {
        false
    } else if a[0] < b[0] {
        true
    } else if a[0] == b[0] {
        key_lt(a.drop_first(), b.drop_first())
    } else {
        false
    }
}

/// No key sorts before itself.
pub proof fn lemma_key_lt_irreflexive(a: Seq<char>)
    ensures
        !key_lt(a, a),
    decreases a.len(),
{
    if a.len() > 0 {
        lemma_key_lt_irreflexive(a.drop_first());
    }
}

/// Of two keys, at most one sorts before the other.
pub proof fn lemma_key_lt_asymmetric(a: Seq<char>, b: Seq<char>)
    ensures
        !(key_lt(a, b) && key_lt(b, a)),
    decreases a.len(),
{
    if a.len() > 0 && b.len() > 0 && a[0] == b[0] {
        lemma_key_lt_asymmetric(a.drop_first(), b.drop_first());
    }
}

/// The key order is transitive.
pub proof fn lemma_key_lt_transitive(a: Seq<char>, b: Seq<char>, c: Seq<char>)
    requires
        key_lt(a, b),
        key_lt(b, c),
    ensures
        key_lt(a, c),
    decreases a.len(),
{
    if a.len() > 0 && b.len() > 0 && c.len() > 0 && a[0] == b[0] && b[0] == c[0] {
        lemma_key_lt_transitive(a.drop_first(), b.drop_first(), c.drop_first());
    }
}

/// Of two different keys, one sorts before the other.
pub proof fn lemma_key_lt_total(a: Seq<char>, b: Seq<char>)
    requires
        a != b,
    ensures
        key_lt(a, b) || key_lt(b, a),
    decreases a.len(),
{
    if a.len() > 0 && b.len() > 0 {
        if a[0] == b[0] {
            if a.drop_first() == b.drop_first() {
                assert(a =~= seq![a[0]] + a.drop_first());
                assert(b =~= seq![b[0]] + b.drop_first());
            }
            lemma_key_lt_total(a.drop_first(), b.drop_first());
        } else {
        }
    } else if a.len() == 0 && b.len() == 0 {
        assert(a =~= b);
    }
}

/// Whether `a` sorts strictly before `b`.
pub fn key_less(a: &str, b: &str) -> (r: bool)
    ensures
        r == key_lt(a@, b@),
{
    let x = chars_of(a);
    let y = chars_of(b);
    let mut i: usize = 0;
    assert(a@.skip(0) =~= a@);
    assert(b@.skip(0) =~= b@);
    while i < x.len() && i < y.len()
        invariant
            x@ == a@,
            y@ == b@,
            i <= x.len(),
            i <= y.len(),
            key_lt(a@, b@) == key_lt(a@.skip(i as int), b@.skip(i as int)),
        decreases x.len() - i,
    {
        assert(a@.skip(i as int).drop_first() =~= a@.skip(i + 1));
        assert(b@.skip(i as int).drop_first() =~= b@.skip(i + 1));
        if x[i] < y[i] {
            return true;
        }
        if x[i] != y[i] {
            return false;
        }
        i = i + 1;
    }
    i < y.len()
}

/// One field of a rule: a header name or a virtual key, and its value.
#[derive(Debug)]
pub struct Field {
    pub key: String,
    pub value: Value,
}

impl View for Field {
    type V = (Seq<char>, ValueModel);

    open spec fn view(&self) -> (Seq<char>, ValueModel) {
        (self.key@, self.value@)
    }
}

/// Fields whose keys ascend strictly.
pub open spec fn keys_sorted(s: Seq<(Seq<char>, ValueModel)>) -> bool {
    forall|i: int, j: int| 0 <= i < j < s.len() ==> key_lt(#[trigger] s[i].0, #[trigger] s[j].0)
}

pub open spec fn has_key(s: Seq<(Seq<char>, ValueModel)>, k: Seq<char>) -> bool {
    exists|i: int| 0 <= i < s.len() && #[trigger] s[i].0 == k
}

/// A position at which key `k` stands, where it stands anywhere.
pub open spec fn key_index(s: Seq<(Seq<char>, ValueModel)>, k: Seq<char>) -> int {
    choose|i: int| 0 <= i < s.len() && #[trigger] s[i].0 == k
}

/// The mapping from keys to values that a list of fields describes.
pub open spec fn field_map(s: Seq<(Seq<char>, ValueModel)>) -> Map<Seq<char>, ValueModel> {
    Map::new(|k: Seq<char>| has_key(s, k), |k: Seq<char>| s[key_index(s, k)].1)
}

/// In sorted fields, each field's key maps to its value.
pub proof fn lemma_field_map_at(s: Seq<(Seq<char>, ValueModel)>, i: int)
    requires
        keys_sorted(s),
        0 <= i < s.len(),
    ensures
        field_map(s).contains_key(s[i].0),
        field_map(s)[s[i].0] == s[i].1,
{
    let k = s[i].0;
    assert(has_key(s, k));
    let j = key_index(s, k);
    if j < i {
        assert(key_lt(s[j].0, s[i].0));
        lemma_key_lt_irreflexive(k);
    } else if i < j {
        assert(key_lt(s[i].0, s[j].0));
        lemma_key_lt_irreflexive(k);
    }
    assert(field_map(s).dom().contains(k));
    assert(field_map(s)[k] == s[j].1);
}

/// Sorted field lists that describe the same mapping are the same list.
pub proof fn lemma_sorted_fields_canonical(
    s: Seq<(Seq<char>, ValueModel)>,
    t: Seq<(Seq<char>, ValueModel)>,
)
    requires
        keys_sorted(s),
        keys_sorted(t),
        field_map(s) == field_map(t),
    ensures
        s == t,
    decreases s.len(),
{
    if s.len() == 0 {
        if t.len() > 0 {
            lemma_field_map_at(t, 0);
        }
        assert(s =~= t);
    } else {
        lemma_field_map_at(s, 0);
        if t.len() == 0 {
            assert(!has_key(t, s[0].0));
        }
        lemma_field_map_at(t, 0);
        let k = s[0].0;
        assert(has_key(t, k));
        let j = choose|j: int| 0 <= j < t.len() && #[trigger] t[j].0 == k;
        assert(has_key(s, t[0].0));
        let i = choose|i: int| 0 <= i < s.len() && #[trigger] s[i].0 == t[0].0;
        if j > 0 && i > 0 {
            lemma_key_lt_asymmetric(k, t[0].0);
        } else if j > 0 {
            lemma_key_lt_irreflexive(k);
        } else if i > 0 {
            lemma_key_lt_irreflexive(k);
        }
        assert(t[0].0 == k);
        lemma_field_map_at(t, 0);
        let s1 = s.drop_first();
        let t1 = t.drop_first();
        assert forall|x: Seq<char>| has_key(s1, x) <==> has_key(t1, x) by {
            if has_key(s1, x) {
                let a = choose|a: int| 0 <= a < s1.len() && #[trigger] s1[a].0 == x;
                assert(s[a + 1].0 == x);
                lemma_field_map_at(s, a + 1);
                assert(has_key(t, x));
                let b = choose|b: int| 0 <= b < t.len() && #[trigger] t[b].0 == x;
                if b == 0 {
                    assert(key_lt(s[0].0, s[a + 1].0));
                    lemma_key_lt_irreflexive(x);
                }
                assert(t1[b - 1].0 == x);
            }
            if has_key(t1, x) {
                let a = choose|a: int| 0 <= a < t1.len() && #[trigger] t1[a].0 == x;
                assert(t[a + 1].0 == x);
                lemma_field_map_at(t, a + 1);
                assert(has_key(s, x));
                let b = choose|b: int| 0 <= b < s.len() && #[trigger] s[b].0 == x;
                if b == 0 {
                    assert(key_lt(t[0].0, t[a + 1].0));
                    lemma_key_lt_irreflexive(x);
                }
                assert(s1[b - 1].0 == x);
            }
        }
        assert forall|x: Seq<char>| has_key(s1, x) implies field_map(s1)[x] == field_map(t1)[x] by {
            let a = choose|a: int| 0 <= a < s1.len() && #[trigger] s1[a].0 == x;
            let b = choose|b: int| 0 <= b < t1.len() && #[trigger] t1[b].0 == x;
            lemma_field_map_at(s1, a);
            lemma_field_map_at(t1, b);
            lemma_field_map_at(s, a + 1);
            lemma_field_map_at(t, b + 1);
        }
        assert(field_map(s1) =~= field_map(t1));
        lemma_sorted_fields_canonical(s1, t1);
        assert(s =~= seq![s[0]] + s1);
        assert(t =~= seq![t[0]] + t1);
    }
}

/// Inserting a field at its place keeps fields sorted and adds it to the
/// mapping.
proof fn lemma_insert_sorted(s: Seq<(Seq<char>, ValueModel)>, p: int, e: (Seq<char>, ValueModel))
    requires
        keys_sorted(s),
        0 <= p <= s.len(),
        forall|j: int| 0 <= j < p ==> key_lt(#[trigger] s[j].0, e.0),
        forall|j: int| p <= j < s.len() ==> key_lt(e.0, #[trigger] s[j].0),
    ensures
        keys_sorted(s.insert(p, e)),
        field_map(s.insert(p, e)) == field_map(s).insert(e.0, e.1),
{
    let t = s.insert(p, e);
    assert forall|i: int, j: int| 0 <= i < j < t.len() implies key_lt(#[trigger] t[i].0, #[trigger] t[j].0) by {
        if j < p {
        } else if j == p {
        } else if i < p {
            assert(key_lt(s[i].0, e.0));
            lemma_key_lt_transitive(s[i].0, e.0, s[j - 1].0);
        } else if i == p {
        } else {
            assert(key_lt(s[i - 1].0, s[j - 1].0));
        }
    }
    let m = field_map(s).insert(e.0, e.1);
    assert forall|x: Seq<char>| #[trigger] has_key(t, x) <==> m.contains_key(x) by {
        if has_key(t, x) {
            let a = choose|a: int| 0 <= a < t.len() && #[trigger] t[a].0 == x;
            if a < p {
                assert(s[a].0 == x);
            } else if a > p {
                assert(s[a - 1].0 == x);
            }
        }
        if m.contains_key(x) && x != e.0 {
            let a = choose|a: int| 0 <= a < s.len() && #[trigger] s[a].0 == x;
            if a < p {
                assert(t[a].0 == x);
            } else {
                assert(t[a + 1].0 == x);
            }
        }
        if x == e.0 {
            assert(t[p].0 == x);
        }
    }
    assert forall|x: Seq<char>| has_key(t, x) implies field_map(t)[x] == m[x] by {
        let a = choose|a: int| 0 <= a < t.len() && #[trigger] t[a].0 == x;
        lemma_field_map_at(t, a);
        if a < p {
            lemma_field_map_at(s, a);
            lemma_key_lt_irreflexive(x);
        } else if a > p {
            lemma_field_map_at(s, a - 1);
            lemma_key_lt_irreflexive(x);
        }
    }
    assert(field_map(t) =~= m);
}

/// Replacing the value of a key keeps fields sorted and updates the mapping.
proof fn lemma_update_sorted(s: Seq<(Seq<char>, ValueModel)>, p: int, e: (Seq<char>, ValueModel))
    requires
        keys_sorted(s),
        0 <= p < s.len(),
        s[p].0 == e.0,
    ensures
        keys_sorted(s.update(p, e)),
        field_map(s.update(p, e)) == field_map(s).insert(e.0, e.1),
{
    let t = s.update(p, e);
    assert forall|i: int, j: int| 0 <= i < j < t.len() implies key_lt(#[trigger] t[i].0, #[trigger] t[j].0) by {
        assert(key_lt(s[i].0, s[j].0));
    }
    let m = field_map(s).insert(e.0, e.1);
    assert forall|x: Seq<char>| #[trigger] has_key(t, x) <==> m.contains_key(x) by {
        if has_key(t, x) {
            let a = choose|a: int| 0 <= a < t.len() && #[trigger] t[a].0 == x;
            assert(s[a].0 == x);
        }
        if m.contains_key(x) {
            if x != e.0 {
                let a = choose|a: int| 0 <= a < s.len() && #[trigger] s[a].0 == x;
                assert(t[a].0 == x);
            } else {
                assert(t[p].0 == x);
            }
        }
    }
    assert forall|x: Seq<char>| has_key(t, x) implies field_map(t)[x] == m[x] by {
        let a = choose|a: int| 0 <= a < t.len() && #[trigger] t[a].0 == x;
        lemma_field_map_at(t, a);
        if a != p {
            lemma_field_map_at(s, a);
            if a < p {
                assert(key_lt(s[a].0, s[p].0));
            } else {
                assert(key_lt(s[p].0, s[a].0));
            }
            lemma_key_lt_irreflexive(x);
            assert(x != e.0);
        }
    }
    assert(field_map(t) =~= m);
}

/// One rule: fields that must all match, at most one per key, kept in
/// ascending key order so that equal rules are written alike.
#[derive(Debug)]
pub struct Rule {
    fields: Vec<Field>,
}

impl View for Rule {
    type V = Seq<(Seq<char>, ValueModel)>;

    closed spec fn view(&self) -> Seq<(Seq<char>, ValueModel)> {
        self.fields@.map_values(|f: Field| f@)
    }
}

impl Rule {
    #[verifier::type_invariant]
    spec fn sorted(&self) -> bool {
        keys_sorted(self@)
    }

    /// A rule without fields.
    pub fn new() -> (r: Rule)
        ensures
            r@ == Seq::<(Seq<char>, ValueModel)>::empty(),
    {
        let r = Rule { fields: Vec::new() };
        assert(r@ =~= Seq::<(Seq<char>, ValueModel)>::empty());
        r
    }

    /// The fields, in ascending key order.
    pub fn fields(&self) -> (r: &Vec<Field>)
        ensures
            r@.map_values(|f: Field| f@) == self@,
            keys_sorted(self@),
    {
        proof {
            use_type_invariant(self);
        }
        &self.fields
    }

    /// Sets the value of field `key`, replacing any value it had.
    pub fn insert(&mut self, key: String, value: Value)
        ensures
            keys_sorted(final(self)@),
            field_map(final(self)@) == field_map(old(self)@).insert(key@, value@),
    {
        proof {
            use_type_invariant(&*self);
        }
        let ghost s = self@;
        let mut taken = Rule::new();
        std::mem::swap(self, &mut taken);
        let mut fields = taken.fields;
        assert(fields@.map_values(|f: Field| f@) == s);
        let mut p: usize = 0;
        while p < fields.len() && key_less(&fields[p].key, &key)
            invariant
                fields@.map_values(|f: Field| f@) == s,
                keys_sorted(s),
                p <= fields.len(),
                forall|j: int| 0 <= j < p ==> key_lt(#[trigger] s[j].0, key@),
            decreases fields.len() - p,
        {
            p = p + 1;
        }
        let ghost e = (key@, value@);
        if p < fields.len() && fields[p].key == key {
            proof {
                lemma_update_sorted(s, p as int, e);
            }
            fields.set(p, Field { key, value });
            assert(fields@.map_values(|f: Field| f@) =~= s.update(p as int, e));
        } else {
            proof {
                assert forall|j: int| p <= j < s.len() implies key_lt(e.0, #[trigger] s[j].0) by {
                    assert(!key_lt(s[p as int].0, e.0));
                    if s[p as int].0 != e.0 {
                        lemma_key_lt_total(s[p as int].0, e.0);
                    }
                    if j > p {
                        assert(key_lt(s[p as int].0, s[j].0));
                        lemma_key_lt_transitive(e.0, s[p as int].0, s[j].0);
                    }
                }
                lemma_insert_sorted(s, p as int, e);
            }
            fields.insert(p, Field { key, value });
            assert(fields@.map_values(|f: Field| f@) =~= s.insert(p as int, e));
        }
        *self = Rule { fields };
    }
}

} // verus!

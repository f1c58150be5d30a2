//! The data model: stored field values, raw documents, and filters.
//!
//! A raw document is a list of named fields, in store order, with the first
//! binding of a name the one that counts.  A field value is one of the
//! shapes the catalog ever reads: a piece of text, a list of strings (one
//! `taught_by` entry), or something else that no decode accepts.

use vstd::prelude::*;

verus! {

/// A stored field value, as far as the catalog can read it.
pub enum Value {
    /// A string value.
    Text(String),
    /// A list of strings: the shape of one `taught_by` entry.
    List(Vec<String>),
    /// Any value of another shape; never decodable.
    Other,
}

/// The mathematical model of a [`Value`].
pub enum ValueV {
    Text(Seq<char>),
    List(Seq<Seq<char>>),
    Other,
}

/// The view of a sequence of viewable values, element by element.
pub open spec fn seq_view<T: View>(s: Seq<T>) -> Seq<T::V> {
    Seq::new(s.len(), |i: int| s[i]@)
}

impl View for Value {
    type V = ValueV;

    open spec fn view(&self) -> ValueV {
        match self {
            Value::Text(s) => ValueV::Text(s@),
            Value::List(v) => ValueV::List(seq_view(v@)),
            Value::Other => ValueV::Other,
        }
    }
}

/// A raw stored document: named fields in store order.
pub struct RawDoc {
    pub fields: Vec<(String, Value)>,
}

/// The model of a document: its fields as (name, value) pairs.
pub type DocV = Seq<(Seq<char>, ValueV)>;

impl View for RawDoc {
    type V = DocV;

    open spec fn view(&self) -> DocV {
        Seq::new(self.fields@.len(), |i: int| (self.fields@[i].0@, self.fields@[i].1@))
    }
}

/// An equality filter: every clause `(field, text)` must hold of a document
/// for it to pass.  An empty filter passes every document.
pub struct Filter {
    pub clauses: Vec<(String, String)>,
}

/// The model of a filter: its clauses as (field, text) pairs.
pub type FilterV = Seq<(Seq<char>, Seq<char>)>;

impl View for Filter {
    type V = FilterV;

    open spec fn view(&self) -> FilterV {
        Seq::new(self.clauses@.len(), |i: int| (self.clauses@[i].0@, self.clauses@[i].1@))
    }
}

/// The value of the first field named `key`, if any.
pub open spec fn lookup(d: DocV, key: Seq<char>) -> Option<ValueV>
    decreases d.len(),
{
    if d.len() == 0 {
        None
    } else if d[0].0 == key {
        Some(d[0].1)
    } else {
        lookup(d.skip(1), key)
    }
}

/// A document passes a filter when every clause's field holds exactly the
/// clause's text.
pub open spec fn doc_matches(d: DocV, f: FilterV) -> bool {
    forall|j: int| 0 <= j < f.len() ==> lookup(d, #[trigger] f[j].0) == Some(ValueV::Text(f[j].1))
}

/// The view of an optional value.
pub open spec fn opt_value_view(r: Option<Value>) -> Option<ValueV> {
    match r {
        Some(v) => Some(v@),
        None => None,
    }
}

/// Copy a vector of strings.
pub(crate) fn clone_strings(v: &Vec<String>) -> (r: Vec<String>)
    ensures
        r@ == v@,
{
    let mut r: Vec<String> = Vec::new();
    let mut i: usize = 0;
    while i < v.len()
        invariant
            i <= v@.len(),
            r@.len() == i,
            forall|j: int| 0 <= j < i ==> r@[j] == v@[j],
        decreases v@.len() - i,
    {
        r.push(v[i].clone());
        i += 1;
    }
    proof {
        assert(r@ =~= v@);
    }
    r
}

impl Clone for Value {
    /// The copy has the same model as the original.
    fn clone(&self) -> (r: Self)
        ensures
            r@ == self@,
    {
        match self {
            Value::Text(s) => Value::Text(s.clone()),
            Value::List(v) => Value::List(clone_strings(v)),
            Value::Other => Value::Other,
        }
    }
}

/// Whether two string vectors hold the same texts.
fn str_vecs_eq(a: &Vec<String>, b: &Vec<String>) -> (r: bool)
    ensures
        r == (seq_view(a@) == seq_view(b@)),
{
    if a.len() != b.len() {
        proof {
            assert(seq_view(a@).len() != seq_view(b@).len());
        }
        return false;
    }
    let mut i: usize = 0;
    while i < a.len()
        invariant
            a@.len() == b@.len(),
            i <= a@.len(),
            forall|j: int| 0 <= j < i ==> seq_view(a@)[j] == seq_view(b@)[j],
        decreases a@.len() - i,
    {
        if !(a[i] == b[i]) {
            proof {
                assert(seq_view(a@)[i as int] != seq_view(b@)[i as int]);
            }
            return false;
        }
        i += 1;
    }
    proof {
        assert(seq_view(a@) =~= seq_view(b@));
    }
    true
}

/// Whether two values have the same model.
pub fn value_eq(a: &Value, b: &Value) -> (r: bool)
    ensures
        r == (a@ == b@),
{
    match (a, b) {
        (Value::Text(x), Value::Text(y)) => *x == *y,
        (Value::List(x), Value::List(y)) => str_vecs_eq(x, y),
        (Value::Other, Value::Other) => true,
        _ => false,
    }
}

/// The value of the first field named `key`, if any.
pub fn lookup_field(d: &RawDoc, key: &String) -> (r: Option<Value>)
    ensures
        opt_value_view(r) == lookup(d@, key@),
{
    let mut i: usize = 0;
    proof {
        assert(d@.skip(0) =~= d@);
    }
    while i < d.fields.len()
        invariant
            i <= d.fields@.len(),
            lookup(d@, key@) == lookup(d@.skip(i as int), key@),
        decreases d.fields@.len() - i,
    {
        proof {
            assert(d@.skip(i as int)[0] == d@[i as int]);
        }
        let pair = &d.fields[i];
        if pair.0 == *key {
            return Some(pair.1.clone());
        }
        proof {
            assert(d@.skip(i as int).skip(1) =~= d@.skip(i as int + 1));
        }
        i += 1;
    }
    proof {
        assert(d@.skip(d.fields@.len() as int) =~= Seq::<(Seq<char>, ValueV)>::empty());
    }
    None
}

/// Whether a document passes a filter.
pub fn doc_passes(d: &RawDoc, f: &Filter) -> (r: bool)
    ensures
        r == doc_matches(d@, f@),
{
    let mut i: usize = 0;
    while i < f.clauses.len()
        invariant
            i <= f.clauses@.len(),
            forall|j: int| 0 <= j < i ==> lookup(d@, #[trigger] f@[j].0) == Some(
                ValueV::Text(f@[j].1),
            ),
        decreases f.clauses@.len() - i,
    {
        let clause = &f.clauses[i];
        let found = lookup_field(d, &clause.0);
        match found {
            Some(Value::Text(s)) => {
                if !(s == clause.1) {
                    proof {
                        assert(lookup(d@, f@[i as int].0) != Some(ValueV::Text(f@[i as int].1)));
                    }
                    return false;
                }
            },
            _ => {
                proof {
                    assert(lookup(d@, f@[i as int].0) != Some(ValueV::Text(f@[i as int].1)));
                }
                return false;
            },
        }
        i += 1;
    }
    true
}

} // verus!

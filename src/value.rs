use vstd::prelude::*;

verus! {

/// What a stored value is, as mathematics.
pub enum ValueModel {
    Str(Seq<char>),
    Blob(Seq<u8>),
    I64(i64),
    Bool(bool),
}

/// A typed value held under a key: one of a small closed set of kinds.
#[derive(Debug)]
pub enum Value {
    Str(String),
    Blob(Vec<u8>),
    I64(i64),
    Bool(bool),
}

impl View for Value {
    type V = ValueModel;

    open spec fn view(&self) -> ValueModel {
        match self {
            Value::Str(s) => ValueModel::Str(s@),
            Value::Blob(b) => ValueModel::Blob(b@),
            Value::I64(n) => ValueModel::I64(*n),
            Value::Bool(b) => ValueModel::Bool(*b),
        }
    }
}

/// The model of an optional value.
pub open spec fn opt_view(o: Option<Value>) -> Option<ValueModel> {
    match o {
        Some(v) => Some(v@),
        None => None,
    }
}

/// Whether two byte strings are equal.
pub fn bytes_equal(a: &Vec<u8>, b: &Vec<u8>) -> (r: bool)
    ensures
        r == (a@ == b@),
{
    if a.len() != b.len() {
        return false;
    }
    let mut i: usize = 0;
    while i < a.len()
        invariant
            a@.len() == b@.len(),
            i <= a@.len(),
            forall|j: int| 0 <= j < i ==> a@[j] == b@[j],
        decreases a@.len() - i,
    {
        if a[i] != b[i] {
            assert(a@[i as int] != b@[i as int]);
            return false;
        }
        i = i + 1;
    }
    assert(a@ =~= b@);
    true
}

impl Value {
    /// A string-typed value holding `s`.
    pub fn from_str(s: &str) -> (r: Value)
        ensures
            r@ == ValueModel::Str(s@),
    {
        Value::Str(s.to_owned())
    }

    /// An independent copy of this value.
    pub fn duplicate(&self) -> (r: Value)
        ensures
            r@ == self@,
    {
        match self {
            Value::Str(s) => Value::Str(s.clone()),
            Value::Blob(b) => Value::Blob(vstd::slice::slice_to_vec(b.as_slice())),
            Value::I64(n) => Value::I64(*n),
            Value::Bool(b) => Value::Bool(*b),
        }
    }

    /// Whether two values are of the same kind and hold the same contents.
    pub fn same_as(&self, other: &Value) -> (r: bool)
        ensures
            r == (self@ == other@),
    {
        match self {
            Value::Str(a) => match other {
                Value::Str(b) => String::eq(a, b),
                _ => false,
            },
            Value::Blob(a) => match other {
                Value::Blob(b) => bytes_equal(a, b),
                _ => false,
            },
            Value::I64(a) => match other {
                Value::I64(b) => *a == *b,
                _ => false,
            },
            Value::Bool(a) => match other {
                Value::Bool(b) => *a == *b,
                _ => false,
            },
        }
    }
}

impl PartialEq for Value {
    fn eq(&self, other: &Value) -> (r: bool) {
        self.same_as(other)
    }
}

impl vstd::std_specs::cmp::PartialEqSpecImpl for Value {
    open spec fn obeys_eq_spec() -> bool {
        true
    }

    open spec fn eq_spec(&self, other: &Value) -> bool {
        self@ == other@
    }
}

} // verus!

use vstd::prelude::*;

verus! {

/// A runtime value. Numbers are fixed-point decimals in millionths (see
/// `crate::number`).
#[derive(Debug)]
pub enum Value {
    Number(i64),
    String(Vec<char>),
    Boolean(bool),
    Nil,
}

/// The mathematical model of a runtime value.
pub enum ValueModel {
    Number(int),
    String(Seq<char>),
    Boolean(bool),
    Nil,
}

impl View for Value {
    type V = ValueModel;

    open spec fn view(&self) -> ValueModel {
        match self {
            Value::Number(n) => ValueModel::Number(*n as int),
            Value::String(s) => ValueModel::String(s@),
            Value::Boolean(b) => ValueModel::Boolean(*b),
            Value::Nil => ValueModel::Nil,
        }
    }
}

/// `false` and `nil` are falsy; every other value is truthy.
pub open spec fn truthy(v: ValueModel) -> bool {
    match v {
        ValueModel::Boolean(b) => b,
        ValueModel::Nil => false,
        _ => true,
    }
}

/// Equality never fails: values of different types are unequal.
pub open spec fn values_equal(a: ValueModel, b: ValueModel) -> bool {
    match (a, b) {
        (ValueModel::Number(x), ValueModel::Number(y)) => x == y,
        (ValueModel::String(x), ValueModel::String(y)) => x == y,
        (ValueModel::Boolean(x), ValueModel::Boolean(y)) => x == y,
        (ValueModel::Nil, ValueModel::Nil) => true,
        _ => false,
    }
}

impl Value {
    /// A copy of this value with the same model.
    pub fn duplicate(&self) -> (r: Value)
        ensures
            r@ == self@,
    {
        match self {
            Value::Number(n) => Value::Number(*n),
            Value::String(s) => {
                let c = s.clone();
                assert(c@ =~= s@);
                Value::String(c)
            },
            Value::Boolean(b) => Value::Boolean(*b),
            Value::Nil => Value::Nil,
        }
    }

    pub fn is_truthy(&self) -> (r: bool)
        ensures
            r == truthy(self@),
    {
        match self {
            Value::Boolean(b) => *b,
            Value::Nil => false,
            _ => true,
        }
    }

    pub fn is_equal(&self, other: &Value) -> (r: bool)
        ensures
            r == values_equal(self@, other@),
    {
        match (self, other) {
            (Value::Number(x), Value::Number(y)) => *x == *y,
            (Value::String(x), Value::String(y)) => same_chars(x, y),
            (Value::Boolean(x), Value::Boolean(y)) => *x == *y,
            (Value::Nil, Value::Nil) => true,
            _ => false,
        }
    }
}

/// Whether two character sequences are the same.
pub fn same_chars(a: &Vec<char>, b: &Vec<char>) -> (r: bool)
    ensures
        r == (a@ == b@),
{
    if a.len() != b.len() {
        return false;
    }
    let mut i: usize = 0;
    while i < a.len()
        invariant
            a@.len() == b@.len(),
            i <= a@.len(),
            a@.subrange(0, i as int) == b@.subrange(0, i as int),
        decreases a@.len() - i,
    {
        if a[i] != b[i] {
            assert(a@[i as int] != b@[i as int]);
            return false;
        }
        assert(a@.subrange(0, i + 1) =~= a@.subrange(0, i as int).push(a@[i as int]));
        assert(b@.subrange(0, i + 1) =~= b@.subrange(0, i as int).push(b@[i as int]));
        i = i + 1;
    }
    assert(a@ =~= a@.subrange(0, i as int));
    assert(b@ =~= b@.subrange(0, i as int));
    true
}

} // verus!

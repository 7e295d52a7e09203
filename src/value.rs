use std::rc::Rc;
use vstd::prelude::*;

verus! {

/// A value read from a column or computed by an expression.
#[derive(Debug, Clone)]
pub enum ValueType {
    Null,
    Bool(bool),
    Integer(i64),
    Str(String),
    Timestamp(i64),
    StrSet(Rc<Vec<String>>),
}

/// Lexicographic order of two character sequences, by code point.
pub open spec fn text_less(a: Seq<char>, b: Seq<char>) -> bool
    decreases a.len(),
{
    if a.len() == 0 {
        b.len() > 0
    } else if b.len() == 0 {
        false
    } else if a[0] != b[0] {
        (a[0] as u32) < (b[0] as u32)
    } else {
        text_less(a.drop_first(), b.drop_first())
    }
}

/// Two lists of strings with the same contents in the same order.
pub open spec fn same_strings(a: Seq<String>, b: Seq<String>) -> bool {
    a.len() == b.len() && forall|i: int| 0 <= i < a.len() ==> (#[trigger] a[i])@ == b[i]@
}

impl ValueType {
    /// Equality by content; values of different variants are never equal.
    pub open spec fn same(self, other: ValueType) -> bool {
        match (self, other) {
            (ValueType::Null, ValueType::Null) => true,
            (ValueType::Bool(x), ValueType::Bool(y)) => x == y,
            (ValueType::Integer(x), ValueType::Integer(y)) => x == y,
            (ValueType::Str(x), ValueType::Str(y)) => x@ == y@,
            (ValueType::Timestamp(x), ValueType::Timestamp(y)) => x == y,
            (ValueType::StrSet(x), ValueType::StrSet(y)) => same_strings(x@, y@),
            _ => false,
        }
    }

    /// The natural order within a variant; values of different variants are unordered.
    pub open spec fn less(self, other: ValueType) -> bool {
        match (self, other) {
            (ValueType::Bool(x), ValueType::Bool(y)) => !x && y,
            (ValueType::Integer(x), ValueType::Integer(y)) => x < y,
            (ValueType::Str(x), ValueType::Str(y)) => text_less(x@, y@),
            (ValueType::Timestamp(x), ValueType::Timestamp(y)) => x < y,
            _ => false,
        }
    }

    /// The integer that an aggregate reads from this value: zero unless it is an integer.
    pub open spec fn spec_as_int(self) -> i64 {
        match self {
            ValueType::Integer(i) => i,
            _ => 0,
        }
    }

    pub fn as_int(&self) -> (r: i64)
        ensures
            r == self.spec_as_int(),
    {
        match self {
            ValueType::Integer(i) => *i,
            _ => 0,
        }
    }

    /// A copy of this value.
    pub fn duplicate(&self) -> (r: ValueType)
        ensures
            r == *self,
    {
        match self {
            ValueType::Null => ValueType::Null,
            ValueType::Bool(b) => ValueType::Bool(*b),
            ValueType::Integer(i) => ValueType::Integer(*i),
            ValueType::Str(s) => ValueType::Str(s.clone()),
            ValueType::Timestamp(t) => ValueType::Timestamp(*t),
            ValueType::StrSet(v) => ValueType::StrSet(v.clone()),
        }
    }

    /// Equality by content.
    pub fn same_as(&self, other: &ValueType) -> (r: bool)
        ensures
            r == self.same(*other),
    {
        match (self, other) {
            (ValueType::Null, ValueType::Null) => true,
            (ValueType::Bool(x), ValueType::Bool(y)) => *x == *y,
            (ValueType::Integer(x), ValueType::Integer(y)) => *x == *y,
            (ValueType::Str(x), ValueType::Str(y)) => *x == *y,
            (ValueType::Timestamp(x), ValueType::Timestamp(y)) => *x == *y,
            (ValueType::StrSet(x), ValueType::StrSet(y)) => {
                let xs: &Vec<String> = &**x;
                let ys: &Vec<String> = &**y;
                assert(xs@ == x@ && ys@ == y@);
                let x = xs;
                let y = ys;
                if x.len() != y.len() {
                    return false;
                }
                let mut i: usize = 0;
                while i < x.len()
                    invariant
                        i <= x@.len(),
                        x@.len() == y@.len(),
                        self.same(*other) == same_strings(x@, y@),
                        forall|j: int| 0 <= j < i ==> (#[trigger] x@[j])@ == y@[j]@,
                    decreases x@.len() - i,
                {
                    if !(x[i] == y[i]) {
                        assert(x@[i as int]@ != y@[i as int]@);
                        return false;
                    }
                    i += 1;
                }
                true
            },
            _ => false,
        }
    }

    /// The natural order within a variant.
    pub fn less_than(&self, other: &ValueType) -> (r: bool)
        ensures
            r == self.less(*other),
    {
        match (self, other) {
            (ValueType::Bool(x), ValueType::Bool(y)) => !*x && *y,
            (ValueType::Integer(x), ValueType::Integer(y)) => *x < *y,
            (ValueType::Str(x), ValueType::Str(y)) => str_less(x.as_str(), y.as_str()),
            (ValueType::Timestamp(x), ValueType::Timestamp(y)) => *x < *y,
            _ => false,
        }
    }
}

fn str_less(a: &str, b: &str) -> (r: bool)
    ensures
        r == text_less(a@, b@),
{
    let la = a.unicode_len();
    let lb = b.unicode_len();
    let mut i: usize = 0;
    assert(a@.skip(0) =~= a@);
    assert(b@.skip(0) =~= b@);
    while i < la && i < lb && a.get_char(i) == b.get_char(i)
        invariant
            la == a@.len(),
            lb == b@.len(),
            i <= la,
            i <= lb,
            text_less(a@.skip(i as int), b@.skip(i as int)) == text_less(a@, b@),
        decreases la - i,
    {
        assert(a@.skip(i as int).drop_first() =~= a@.skip(i + 1));
        assert(b@.skip(i as int).drop_first() =~= b@.skip(i + 1));
        i += 1;
    }
    if i == la {
        i < lb
    } else if i == lb {
        false
    } else {
        (a.get_char(i) as u32) < (b.get_char(i) as u32)
    }
}

impl PartialEq for ValueType {
    fn eq(&self, other: &ValueType) -> (r: bool) {
        self.same_as(other)
    }
}

impl vstd::std_specs::cmp::PartialEqSpecImpl for ValueType {
    open spec fn obeys_eq_spec() -> bool {
        false
    }

    open spec fn eq_spec(&self, other: &ValueType) -> bool {
        self.same(*other)
    }
}

} // verus!

use vstd::prelude::*;
use vstd::wrapping::i64_specs;

use crate::value::ValueType;

verus! {

/// The operator of a function node.
#[derive(Debug, Clone, Copy, PartialEq, Eq, Structural)]
pub enum FuncType {
    And,
    Or,
    LT,
    GT,
    Equals,
    Negate,
    Add,
    Subtract,
}

/// A filter or projection expression over the values of one row.
#[derive(Debug)]
pub enum Expr {
    ColName(String),
    ColIndex(usize),
    Const(ValueType),
    Func(FuncType, Box<Expr>, Box<Expr>),
}

/// Whether `names` holds `n`.
pub open spec fn lists(names: Seq<String>, n: Seq<char>) -> bool {
    exists|i: int| 0 <= i < names.len() && (#[trigger] names[i])@ == n
}

/// The position of the last of `names` equal to `n`.
pub open spec fn last_position(names: Seq<String>, n: Seq<char>) -> Option<nat>
    decreases names.len(),
{
    if names.len() == 0 {
        None
    } else if names.last()@ == n {
        Some((names.len() - 1) as nat)
    } else {
        last_position(names.drop_last(), n)
    }
}

/// The result of operator `f` on the values `l` and `r`.
pub open spec fn apply(f: FuncType, l: ValueType, r: ValueType) -> ValueType {
    match f {
        FuncType::And => match (l, r) {
            (ValueType::Bool(false), _) => ValueType::Bool(false),
            (ValueType::Bool(true), ValueType::Bool(b)) => ValueType::Bool(b),
            _ => ValueType::Null,
        },
        FuncType::Or => match (l, r) {
            (ValueType::Bool(true), _) => ValueType::Bool(true),
            (ValueType::Bool(false), ValueType::Bool(b)) => ValueType::Bool(b),
            _ => ValueType::Null,
        },
        FuncType::LT => ValueType::Bool(l.less(r)),
        FuncType::GT => ValueType::Bool(r.less(l)),
        FuncType::Equals => ValueType::Bool(l.same(r)),
        FuncType::Negate => match l {
            ValueType::Integer(i) => ValueType::Integer(i64_specs::wrapping_sub(0, i)),
            _ => ValueType::Null,
        },
        FuncType::Add => match (l, r) {
            (ValueType::Integer(a), ValueType::Integer(b)) => ValueType::Integer(
                i64_specs::wrapping_add(a, b),
            ),
            (ValueType::Timestamp(a), ValueType::Integer(b)) => ValueType::Timestamp(
                i64_specs::wrapping_add(a, b),
            ),
            _ => ValueType::Null,
        },
        FuncType::Subtract => match (l, r) {
            (ValueType::Integer(a), ValueType::Integer(b)) => ValueType::Integer(
                i64_specs::wrapping_sub(a, b),
            ),
            (ValueType::Timestamp(a), ValueType::Integer(b)) => ValueType::Timestamp(
                i64_specs::wrapping_sub(a, b),
            ),
            _ => ValueType::Null,
        },
    }
}

impl Expr {
    /// The value of this expression on the row `record`; a name that was not compiled
    /// and an index past the row read as `Null`.
    pub open spec fn spec_eval(&self, record: Seq<ValueType>) -> ValueType
        decreases self,
    {
        match self {
            Expr::ColName(_) => ValueType::Null,
            Expr::ColIndex(i) => if *i < record.len() {
                record[*i as int]
            } else {
                ValueType::Null
            },
            Expr::Const(v) => *v,
            Expr::Func(f, l, r) => apply(*f, l.spec_eval(record), r.spec_eval(record)),
        }
    }

    /// This expression with each column name replaced by the position of that column
    /// in `names`, or by `Null` where `names` does not hold it.
    pub open spec fn spec_compile(&self, names: Seq<String>) -> Expr
        decreases self,
    {
        match self {
            Expr::ColName(n) => match last_position(names, n@) {
                Some(i) => Expr::ColIndex(i as usize),
                None => Expr::Const(ValueType::Null),
            },
            Expr::ColIndex(i) => Expr::ColIndex(*i),
            Expr::Const(v) => Expr::Const(*v),
            Expr::Func(f, l, r) => Expr::Func(
                *f,
                Box::new(l.spec_compile(names)),
                Box::new(r.spec_compile(names)),
            ),
        }
    }

    /// Whether this expression names column `n`.
    pub open spec fn mentions(&self, n: Seq<char>) -> bool
        decreases self,
    {
        match self {
            Expr::ColName(m) => m@ == n,
            Expr::Func(_, l, r) => l.mentions(n) || r.mentions(n),
            _ => false,
        }
    }

    pub fn col(name: &str) -> (r: Expr)
        ensures
            r matches Expr::ColName(n) && n@ == name@,
    {
        Expr::ColName(name.to_owned())
    }

    pub fn func(f: FuncType, left: Expr, right: Expr) -> (r: Expr)
        ensures
            r == Expr::Func(f, Box::new(left), Box::new(right)),
    {
        Expr::Func(f, Box::new(left), Box::new(right))
    }

    /// The value of this expression on the row `record`.
    pub fn eval(&self, record: &Vec<ValueType>) -> (r: ValueType)
        ensures
            r == self.spec_eval(record@),
        decreases self,
    {
        match self {
            Expr::ColName(_) => ValueType::Null,
            Expr::ColIndex(i) => if *i < record.len() {
                record[*i].duplicate()
            } else {
                ValueType::Null
            },
            Expr::Const(v) => v.duplicate(),
            Expr::Func(f, l, r) => {
                let a = l.eval(record);
                match (*f, &a) {
                    (FuncType::And, ValueType::Bool(false)) => {
                        return ValueType::Bool(false);
                    },
                    (FuncType::Or, ValueType::Bool(true)) => {
                        return ValueType::Bool(true);
                    },
                    _ => {},
                }
                let b = r.eval(record);
                match *f {
                    FuncType::And => match (a, b) {
                        (ValueType::Bool(true), ValueType::Bool(x)) => ValueType::Bool(x),
                        _ => ValueType::Null,
                    },
                    FuncType::Or => match (a, b) {
                        (ValueType::Bool(false), ValueType::Bool(x)) => ValueType::Bool(x),
                        _ => ValueType::Null,
                    },
                    FuncType::LT => ValueType::Bool(a.less_than(&b)),
                    FuncType::GT => ValueType::Bool(b.less_than(&a)),
                    FuncType::Equals => ValueType::Bool(a.same_as(&b)),
                    FuncType::Negate => match a {
                        ValueType::Integer(i) => ValueType::Integer(0i64.wrapping_sub(i)),
                        _ => ValueType::Null,
                    },
                    FuncType::Add => match (a, b) {
                        (ValueType::Integer(x), ValueType::Integer(y)) => ValueType::Integer(
                            x.wrapping_add(y),
                        ),
                        (ValueType::Timestamp(x), ValueType::Integer(y)) => ValueType::Timestamp(
                            x.wrapping_add(y),
                        ),
                        _ => ValueType::Null,
                    },
                    FuncType::Subtract => match (a, b) {
                        (ValueType::Integer(x), ValueType::Integer(y)) => ValueType::Integer(
                            x.wrapping_sub(y),
                        ),
                        (ValueType::Timestamp(x), ValueType::Integer(y)) => ValueType::Timestamp(
                            x.wrapping_sub(y),
                        ),
                        _ => ValueType::Null,
                    },
                }
            },
        }
    }

    /// This expression compiled against the column names `names`.
    pub fn compile(&self, names: &Vec<String>) -> (r: Expr)
        ensures
            r == self.spec_compile(names@),
        decreases self,
    {
        match self {
            Expr::ColName(n) => match position_of(names, n) {
                Some(i) => Expr::ColIndex(i),
                None => Expr::Const(ValueType::Null),
            },
            Expr::ColIndex(i) => Expr::ColIndex(*i),
            Expr::Const(v) => Expr::Const(v.duplicate()),
            Expr::Func(f, l, r) => Expr::Func(
                *f,
                Box::new(l.compile(names)),
                Box::new(r.compile(names)),
            ),
        }
    }

    /// Adds to `names` each column name of this expression that it does not hold yet.
    pub fn add_colnames(&self, names: &mut Vec<String>)
        ensures
            forall|n: Seq<char>|
                #[trigger] lists(final(names)@, n) == (lists(old(names)@, n) || self.mentions(n)),
        decreases self,
    {
        match self {
            Expr::ColName(n) => {
                let ghost before = names@;
                if position_of(names, n).is_none() {
                    names.push(n.clone());
                    assert forall|m: Seq<char>|
                        #[trigger] lists(names@, m) == (lists(before, m) || self.mentions(m)) by {
                        if lists(before, m) {
                            let i = choose|i: int| 0 <= i < before.len() && (#[trigger] before[i])@ == m;
                            assert(names@[i] == before[i]);
                        }
                        if m == n@ {
                            assert(names@[names@.len() - 1] == *n);
                        }
                        if lists(names@, m) {
                            let i = choose|i: int| 0 <= i < names@.len() && (#[trigger] names@[i])@ == m;
                            if i < before.len() {
                                assert(names@[i] == before[i]);
                            }
                        }
                    }
                } else {
                    proof {
                        lemma_last_position_lists(before, n@);
                    }
                }
            },
            Expr::Func(_, l, r) => {
                l.add_colnames(names);
                r.add_colnames(names);
            },
            _ => {},
        }
    }
}

proof fn lemma_last_position_lists(names: Seq<String>, n: Seq<char>)
    ensures
        last_position(names, n) is Some ==> lists(names, n),
        last_position(names, n) is None ==> !lists(names, n),
        last_position(names, n) matches Some(i) ==> i < names.len() && names[i as int]@ == n,
    decreases names.len(),
{
    if names.len() > 0 {
        lemma_last_position_lists(names.drop_last(), n);
        if last_position(names, n) is Some {
            if names.last()@ != n {
                let i = choose|i: int| 0 <= i < names.drop_last().len() && (#[trigger] names.drop_last()[i])@ == n;
                assert(names[i] == names.drop_last()[i]);
            } else {
                assert(names[names.len() - 1]@ == n);
            }
        } else {
            if lists(names, n) {
                let i = choose|i: int| 0 <= i < names.len() && (#[trigger] names[i])@ == n;
                assert(names.drop_last()[i] == names[i]);
            }
        }
    }
}

/// The position of the last of `names` equal to `n`.
pub fn position_of(names: &Vec<String>, n: &String) -> (r: Option<usize>)
    ensures
        r == (match last_position(names@, n@) {
            Some(i) => Some(i as usize),
            None => None::<usize>,
        }),
        r is Some <==> lists(names@, n@),
{
    proof {
        lemma_last_position_lists(names@, n@);
    }
    let mut end: usize = names.len();
    assert(names@.take(end as int) =~= names@);
    while end > 0
        invariant
            end <= names@.len(),
            last_position(names@.take(end as int), n@) == last_position(names@, n@),
        decreases end,
    {
        assert(names@.take(end as int).drop_last() =~= names@.take(end - 1));
        assert(names@.take(end as int).last() == names@[end - 1]);
        if names[end - 1] == *n {
            return Some(end - 1);
        }
        end -= 1;
    }
    None
}

} // verus!

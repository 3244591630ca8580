use vstd::prelude::*;

verus! {

broadcast use vstd::std_specs::vec::axiom_vec_index_decreases;

/// A built-in primitive, named rather than held as a function pointer.
#[derive(PartialEq, Eq, Structural, Clone, Copy, Debug)]
pub enum Primitive {
    Add,
    Sub,
    NumEq,
    Gt,
    Lt,
    Le,
    Ge,
}

/// The value and syntax tree type of the interpreter.
#[derive(Debug, PartialEq)]
pub enum Expression {
    Symbol(String),
    Number(i64),
    List(Vec<Expression>),
    Func(Primitive),
    Bool(bool),
    Lambda(Lambda),
    String(String),
}

/// A user-defined function: its parameter list and its body, both unevaluated.
#[derive(Debug, PartialEq)]
pub struct Lambda {
    pub params: Box<Expression>,
    pub body: Box<Expression>,
}

/// The one error of the interpreter, with a reason for a human reader.
#[derive(Debug, PartialEq)]
pub enum GError {
    Reason(String),
}

/// The mathematical model of an `Expression`.
pub enum Datum {
    Symbol(Seq<char>),
    Number(int),
    List(Seq<Datum>),
    Func(Primitive),
    Bool(bool),
    Lambda(Box<Datum>, Box<Datum>),
    Str(Seq<char>),
}

impl Expression {
    pub open spec fn view(&self) -> Datum
        decreases self,
    {
        match self {
            Expression::Symbol(s) => Datum::Symbol(s@),
            Expression::Number(n) => Datum::Number(*n as int),
            Expression::List(v) => Datum::List(
                Seq::new(
                    v.len() as nat,
                    |i: int|
                        if 0 <= i < v.len() {
                            v[i].view()
                        } else {
                            Datum::Bool(false)
                        },
                ),
            ),
            Expression::Func(p) => Datum::Func(*p),
            Expression::Bool(b) => Datum::Bool(*b),
            Expression::Lambda(l) => Datum::Lambda(Box::new(l.params.view()), Box::new(l.body.view())),
            Expression::String(s) => Datum::Str(s@),
        }
    }

    /// A deep copy.
    pub fn duplicate(&self) -> (r: Expression)
        ensures
            r@ == self@,
        decreases self,
    {
        match self {
            Expression::Symbol(s) => Expression::Symbol(s.clone()),
            Expression::Number(n) => Expression::Number(*n),
            Expression::List(v) => {
                let w = duplicate_all(v);
                let r = Expression::List(w);
                proof {
                    assert(views(w@).len() == w@.len() && views(v@).len() == v@.len());
                    assert forall|i: int| 0 <= i < w.len() implies w[i]@ == v[i]@ by {
                        assert(views(w@)[i] == views(v@)[i]);
                    }
                    if let Datum::List(a) = r@ {
                        if let Datum::List(b) = self@ {
                            assert(a =~= b);
                        }
                    }
                }
                r
            },
            Expression::Func(p) => Expression::Func(*p),
            Expression::Bool(b) => Expression::Bool(*b),
            Expression::Lambda(l) => Expression::Lambda(
                Lambda { params: Box::new(l.params.duplicate()), body: Box::new(l.body.duplicate()) },
            ),
            Expression::String(s) => Expression::String(s.clone()),
        }
    }
}

/// The models of a sequence of expressions.
pub open spec fn views(v: Seq<Expression>) -> Seq<Datum> {
    Seq::new(v.len(), |i: int| v[i]@)
}

/// A deep copy of each expression of `v`.
pub fn duplicate_all(v: &Vec<Expression>) -> (r: Vec<Expression>)
    ensures
        views(r@) == views(v@),
    decreases v,
{
    let mut out: Vec<Expression> = Vec::new();
    let mut i: usize = 0;
    while i < v.len()
        invariant
            i <= v.len(),
            out@.len() == i,
            forall|j: int| 0 <= j < i ==> out@[j]@ == v@[j]@,
        decreases v.len() - i,
    {
        proof {
            assert(decreases_to!(v => v[i as int]));
        }
        out.push(v[i].duplicate());
        i = i + 1;
    }
    assert(views(out@) =~= views(v@));
    out
}

impl GError {
    pub open spec fn view(&self) -> Seq<char> {
        match self {
            GError::Reason(s) => s@,
        }
    }
}

/// An error with the given reason.
pub fn reason(s: &str) -> (e: GError)
    ensures
        e@ == s@,
{
    GError::Reason(String::from_str(s))
}

} // verus!

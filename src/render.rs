use vstd::prelude::*;
use crate::expr::{views, Datum, Expression};

verus! {

broadcast use vstd::std_specs::vec::axiom_vec_index_decreases;

/// The decimal digit of value `d`, for `0 <= d <= 9`.
pub open spec fn digit_char(d: int) -> char {
    if d == 0 { '0' }
    else if d == 1 { '1' }
    else if d == 2 { '2' }
    else if d == 3 { '3' }
    else if d == 4 { '4' }
    else if d == 5 { '5' }
    else if d == 6 { '6' }
    else if d == 7 { '7' }
    else if d == 8 { '8' }
    else { '9' }
}

/// The decimal digits of `n`, most significant first, without leading zeros.
pub open spec fn nat_text(n: nat) -> Seq<char>
    decreases n,
{
    if n < 10 {
        seq![digit_char(n as int)]
    } else {
        nat_text(n / 10).push(digit_char((n % 10) as int))
    }
}

/// The canonical decimal text of an integer: a minus sign for negatives, then the digits.
pub open spec fn int_text(n: int) -> Seq<char> {
    if n < 0 {
        seq!['-'] + nat_text((-n) as nat)
    } else {
        nat_text(n as nat)
    }
}

/// What `<str as Debug>::fmt` writes for a text.
pub uninterp spec fn debug_quoted(s: Seq<char>) -> Seq<char>;

/// Relies on `<str as Debug>::fmt`: the text quoted and escaped as Rust's `{:?}` writes it.
#[verifier::external_body]
fn debug_quote(s: &str) -> (r: String)
    ensures
        r@ == debug_quoted(s@),
{
    format!("{:?}", s)
}

/// The quoted renderings of the first `n` elements of a list, separated by a comma
/// and a space.
pub open spec fn items_text(items: Seq<Datum>, n: int) -> Seq<char>
    decreases items, n,
{
    if n <= 0 || n > items.len() {
        Seq::empty()
    } else if n == 1 {
        debug_quoted(render(items[0]))
    } else {
        items_text(items, n - 1) + ", "@ + debug_quoted(render(items[n - 1]))
    }
}

/// The canonical text of a value.
pub open spec fn render(d: Datum) -> Seq<char>
    decreases d, 0int,
{
    match d {
        Datum::Symbol(s) => s,
        Datum::Number(n) => int_text(n),
        Datum::List(items) => "["@ + items_text(items, items.len() as int) + "]"@,
        Datum::Func(_) => "function()"@,
        Datum::Bool(b) => if b {
            "true"@
        } else {
            "false"@
        },
        Datum::Lambda(p, b) => "lambda: { params: "@ + render(*p) + ", body: "@ + render(*b)
            + " }"@,
        Datum::Str(s) => "\""@ + s + "\""@,
    }
}

fn digit_str(d: u64) -> (r: &'static str)
    requires
        d < 10,
    ensures
        r@ == seq![digit_char(d as int)],
{
    proof {
        reveal_strlit("0");
        reveal_strlit("1");
        reveal_strlit("2");
        reveal_strlit("3");
        reveal_strlit("4");
        reveal_strlit("5");
        reveal_strlit("6");
        reveal_strlit("7");
        reveal_strlit("8");
        reveal_strlit("9");
    }
    if d == 0 {
        assert("0"@ =~= seq!['0']);
        "0"
    } else if d == 1 {
        assert("1"@ =~= seq!['1']);
        "1"
    } else if d == 2 {
        assert("2"@ =~= seq!['2']);
        "2"
    } else if d == 3 {
        assert("3"@ =~= seq!['3']);
        "3"
    } else if d == 4 {
        assert("4"@ =~= seq!['4']);
        "4"
    } else if d == 5 {
        assert("5"@ =~= seq!['5']);
        "5"
    } else if d == 6 {
        assert("6"@ =~= seq!['6']);
        "6"
    } else if d == 7 {
        assert("7"@ =~= seq!['7']);
        "7"
    } else if d == 8 {
        assert("8"@ =~= seq!['8']);
        "8"
    } else {
        assert("9"@ =~= seq!['9']);
        "9"
    }
}

pub(crate) fn natural_text(m: u64) -> (r: String)
    ensures
        r@ == nat_text(m as nat),
    decreases m,
{
    if m < 10 {
        String::from_str(digit_str(m))
    } else {
        let mut s = natural_text(m / 10);
        s.append(digit_str(m % 10));
        s
    }
}

/// The canonical decimal text of `n`.
pub fn integer_text(n: i64) -> (r: String)
    ensures
        r@ == int_text(n as int),
{
    if n < 0 {
        let m: u64 = (0 - (n as i128)) as u64;
        let mut s = String::from_str("-");
        proof {
            reveal_strlit("-");
        }
        s.append(natural_text(m).as_str());
        s
    } else {
        natural_text(n as u64)
    }
}

/// The text of a list with elements `v`.
fn list_text(v: &Vec<Expression>) -> (r: String)
    ensures
        r@ == "["@ + items_text(views(v@), v@.len() as int) + "]"@,
    decreases v,
{
    let ghost items = views(v@);
    let mut out = String::from_str("[");
    let mut i: usize = 0;
    while i < v.len()
        invariant
            i <= v.len(),
            items == views(v@),
            out@ == "["@ + items_text(items, i as int),
        decreases v.len() - i,
    {
        proof {
            assert(decreases_to!(v => v[i as int]));
        }
        let item = v[i].to_string();
        let q = debug_quote(item.as_str());
        if i > 0 {
            out.append(", ");
        }
        out.append(q.as_str());
        i = i + 1;
    }
    out.append("]");
    out
}

impl Expression {
    /// The canonical text of this value: symbols and numbers bare, strings in double
    /// quotes, lists bracketed with each element quoted, lambdas with their parts.
    pub fn to_string(&self) -> (r: String)
        ensures
            r@ == render(self@),
        decreases self,
    {
        proof {
            reveal_strlit("function()");
            reveal_strlit("true");
            reveal_strlit("false");
        }
        match self {
            Expression::Symbol(s) => s.clone(),
            Expression::Number(n) => integer_text(*n),
            Expression::List(v) => {
                let out = list_text(v);
                proof {
                    if let Datum::List(items) = self@ {
                        assert(items =~= views(v@));
                    }
                }
                out
            },
            Expression::Func(_) => String::from_str("function()"),
            Expression::Bool(b) => if *b {
                String::from_str("true")
            } else {
                String::from_str("false")
            },
            Expression::Lambda(l) => {
                let mut out = String::from_str("lambda: { params: ");
                out.append(l.params.to_string().as_str());
                out.append(", body: ");
                out.append(l.body.to_string().as_str());
                out.append(" }");
                assert(out@ == render(self@));
                out
            },
            Expression::String(s) => {
                let mut out = String::from_str("\"");
                out.append(s.as_str());
                out.append("\"");
                assert(out@ == render(self@));
                out
            },
        }
    }
}

} // verus!

use vstd::prelude::*;
use crate::expr::{reason, views, Datum, Expression, GError, Primitive};

verus! {

/// The numbers among `args`, if every argument is a number.
pub open spec fn numbers_of(args: Seq<Datum>) -> Option<Seq<int>>
    decreases args.len(),
{
    if args.len() == 0 {
        Some(Seq::empty())
    } else {
        match (numbers_of(args.drop_last()), args.last()) {
            (Some(ns), Datum::Number(n)) => Some(ns.push(n)),
            _ => None,
        }
    }
}

/// The sum of `s`.
pub open spec fn sum(s: Seq<int>) -> int
    decreases s.len(),
{
    if s.len() == 0 {
        0
    } else {
        sum(s.drop_last()) + s.last()
    }
}

/// Whether `a` and `b` stand in the order that a comparison primitive checks.
pub open spec fn in_order(p: Primitive, a: int, b: int) -> bool {
    match p {
        Primitive::Gt => a > b,
        Primitive::Lt => a < b,
        Primitive::Le => a <= b,
        _ => a >= b,
    }
}

/// Whether each number of `s` stands in that order with the next.
pub open spec fn monotone(p: Primitive, s: Seq<int>) -> bool {
    forall|i: int| 0 <= i < s.len() - 1 ==> in_order(p, #[trigger] s[i], s[i + 1])
}

/// Whether `v` fits in 64 signed bits.
pub open spec fn fits(v: int) -> bool {
    i64::MIN <= v <= i64::MAX
}

/// A number, or the error for a value out of range.
pub open spec fn number_result(v: int) -> Result<Datum, Seq<char>> {
    if fits(v) {
        Ok(Datum::Number(v))
    } else {
        Err("number out of range"@)
    }
}

/// What a primitive returns on the given arguments.
pub open spec fn apply_spec(p: Primitive, args: Seq<Datum>) -> Result<Datum, Seq<char>> {
    match numbers_of(args) {
        None => Err("expect a number"@),
        Some(ns) => match p {
            Primitive::Add => number_result(sum(ns)),
            Primitive::Sub => if ns.len() == 0 {
                Err("expected at least one number"@)
            } else {
                number_result(ns[0] - sum(ns.drop_first()))
            },
            Primitive::NumEq => if ns.len() != 2 {
                Err("expected two number"@)
            } else {
                Ok(Datum::Bool(ns[0] == ns[1]))
            },
            _ => if ns.len() == 0 {
                Err("expected at least one number"@)
            } else {
                Ok(Datum::Bool(monotone(p, ns)))
            },
        },
    }
}

/// The model of an evaluation's result.
pub open spec fn result_view(r: Result<Expression, GError>) -> Result<Datum, Seq<char>> {
    match r {
        Ok(e) => Ok(e@),
        Err(g) => Err(g@),
    }
}

/// The numbers of `args`, or the error for an argument that is not a number.
fn numbers(args: &Vec<Expression>) -> (r: Result<Vec<i64>, GError>)
    ensures
        match r {
            Ok(ns) => numbers_of(views(args@)) == Some(ns@.map_values(|n: i64| n as int)),
            Err(g) => numbers_of(views(args@)) is None && g@ == "expect a number"@,
        },
{
    let ghost a = views(args@);
    let mut ns: Vec<i64> = Vec::new();
    let mut i: usize = 0;
    while i < args.len()
        invariant
            i <= args.len(),
            a == views(args@),
            numbers_of(a.take(i as int)) == Some(ns@.map_values(|n: i64| n as int)),
        decreases args.len() - i,
    {
        proof {
            assert(a.take(i + 1).drop_last() =~= a.take(i as int));
        }
        match &args[i] {
            Expression::Number(n) => {
                let ghost before = ns@;
                ns.push(*n);
                proof {
                    assert(ns@.map_values(|n: i64| n as int) =~= before.map_values(
                        |n: i64| n as int,
                    ).push(*n as int));
                }
            },
            _ => {
                proof {
                    lemma_numbers_prefix(a, i as int + 1);
                }
                return Err(reason("expect a number"));
            },
        }
        i = i + 1;
    }
    proof {
        assert(a.take(args.len() as int) =~= a);
    }
    Ok(ns)
}

proof fn lemma_numbers_prefix(a: Seq<Datum>, n: int)
    requires
        0 <= n <= a.len(),
        numbers_of(a.take(n)) is None,
    ensures
        numbers_of(a) is None,
    decreases a.len() - n,
{
    if n < a.len() {
        assert(a.take(n + 1).drop_last() =~= a.take(n));
        lemma_numbers_prefix(a, n + 1);
    } else {
        assert(a.take(n) =~= a);
    }
}

/// The sum of `ns` from index `from` on.
fn sum_from(ns: &Vec<i64>, from: usize) -> (r: i128)
    requires
        from <= ns.len(),
    ensures
        r == sum(ns@.map_values(|n: i64| n as int).subrange(from as int, ns.len() as int)),
        -((ns.len() - from) as int) * 0x8000_0000_0000_0000 <= r <= ((ns.len() - from) as int)
            * 0x8000_0000_0000_0000,
{
    let ghost all = ns@.map_values(|n: i64| n as int);
    let mut acc: i128 = 0;
    let mut i: usize = from;
    while i < ns.len()
        invariant
            from <= i <= ns.len(),
            all == ns@.map_values(|n: i64| n as int),
            acc == sum(all.subrange(from as int, i as int)),
            -((i - from) as int) * 0x8000_0000_0000_0000 <= acc <= ((i - from) as int)
                * 0x8000_0000_0000_0000,
        decreases ns.len() - i,
    {
        proof {
            assert(all.subrange(from as int, i + 1).drop_last() =~= all.subrange(
                from as int,
                i as int,
            ));
        }
        acc = acc + ns[i] as i128;
        i = i + 1;
    }
    acc
}

/// Applies a primitive to evaluated arguments: `+` sums, `-` takes the rest from the
/// first, `=` compares two numbers, and `>`, `<`, `<=`, `>=` check that the numbers
/// are in that order pairwise.
pub fn apply_primitive(p: Primitive, args: &Vec<Expression>) -> (r: Result<Expression, GError>)
    ensures
        result_view(r) == apply_spec(p, views(args@)),
{
    let ns = match numbers(args) {
        Ok(ns) => ns,
        Err(e) => {
            return Err(e);
        },
    };
    let ghost s = ns@.map_values(|n: i64| n as int);
    match p {
        Primitive::Add => {
            let total = sum_from(&ns, 0);
            proof {
                assert(s.subrange(0, ns.len() as int) =~= s);
            }
            if total < i64::MIN as i128 || total > i64::MAX as i128 {
                Err(reason("number out of range"))
            } else {
                Ok(Expression::Number(total as i64))
            }
        },
        Primitive::Sub => {
            if ns.len() == 0 {
                return Err(reason("expected at least one number"));
            }
            let rest = sum_from(&ns, 1);
            proof {
                assert(s.subrange(1, ns.len() as int) =~= s.drop_first());
            }
            let v = ns[0] as i128 - rest;
            if v < i64::MIN as i128 || v > i64::MAX as i128 {
                Err(reason("number out of range"))
            } else {
                Ok(Expression::Number(v as i64))
            }
        },
        Primitive::NumEq => {
            if ns.len() != 2 {
                return Err(reason("expected two number"));
            }
            Ok(Expression::Bool(ns[0] == ns[1]))
        },
        _ => {
            if ns.len() == 0 {
                return Err(reason("expected at least one number"));
            }
            let mut ok = true;
            let mut i: usize = 0;
            while i + 1 < ns.len()
                invariant
                    ns.len() >= 1,
                    i + 1 <= ns.len(),
                    s == ns@.map_values(|n: i64| n as int),
                    p != Primitive::Add && p != Primitive::Sub && p != Primitive::NumEq,
                    ok == (forall|j: int| 0 <= j < i ==> in_order(p, #[trigger] s[j], s[j + 1])),
                decreases ns.len() - i,
            {
                let a = ns[i];
                let b = ns[i + 1];
                let here = match p {
                    Primitive::Gt => a > b,
                    Primitive::Lt => a < b,
                    Primitive::Le => a <= b,
                    _ => a >= b,
                };
                proof {
                    assert(here == in_order(p, s[i as int], s[i + 1]));
                    if !here {
                        assert(!in_order(p, s[i as int], s[i as int + 1]));
                    }
                }
                ok = ok && here;
                i = i + 1;
            }
            Ok(Expression::Bool(ok))
        },
    }
}

} // verus!

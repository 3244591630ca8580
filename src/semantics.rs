use vstd::prelude::*;
use crate::builtins::apply_spec;
use crate::env::{env_define, env_lookup, frame_set, Frame};
use crate::expr::Datum;
use crate::render::{int_text, render};

verus! {

/// A value or the reason an evaluation failed, with the frames it left behind.
pub type Outcome = (Result<Datum, Seq<char>>, Seq<Frame>);

/// The reason given when an evaluation runs out of its bound.
pub open spec fn limit_reason() -> Seq<char> {
    "evaluation limit reached"@
}

/// The reason given when a special form has the wrong number of forms.
pub open spec fn arity_reason(name: Seq<char>) -> Seq<char> {
    name + ": wrong number of forms"@
}

/// The symbol that marks a quoted list.
pub open spec fn quote_symbol() -> Datum {
    Datum::Symbol("quote"@)
}

/// Whether `d` is a list whose first element is the symbol `quote`.
pub open spec fn is_quoted(d: Datum) -> bool {
    match d {
        Datum::List(l) => l.len() >= 1 && l[0] == quote_symbol(),
        _ => false,
    }
}

/// Whether `name` names a special form.
pub open spec fn is_special_form(name: Seq<char>) -> bool {
    name == "if"@ || name == "def"@ || name == "set"@ || name == "lambda"@ || name == "quote"@
        || name == "atom"@ || name == "eq"@ || name == "car"@ || name == "cdr"@ || name
        == "cons"@ || name == "cond"@ || name == "do"@ || name == "loop"@ || name == "or"@
        || name == "and"@
}

/// The names of a parameter list, if every element is a symbol.
pub open spec fn symbol_names(ps: Seq<Datum>) -> Option<Seq<Seq<char>>>
    decreases ps.len(),
{
    if ps.len() == 0 {
        Some(Seq::empty())
    } else {
        match (symbol_names(ps.drop_last()), ps.last()) {
            (Some(ns), Datum::Symbol(n)) => Some(ns.push(n)),
            _ => None,
        }
    }
}

/// The frame that binds each name to the value at the same place, later names
/// replacing earlier equal ones.
pub open spec fn bind_all(names: Seq<Seq<char>>, vals: Seq<Datum>) -> Frame
    decreases names.len(),
{
    if names.len() == 0 || vals.len() == 0 {
        Seq::empty()
    } else {
        frame_set(bind_all(names.drop_last(), vals.drop_last()), names.last(), vals.last())
    }
}

/// Evaluates `e` in `env` with at most `fuel` nested steps.
pub open spec fn eval_spec(fuel: nat, e: Datum, env: Seq<Frame>) -> Outcome
    decreases fuel, 0int, 0int,
{
    if fuel == 0 {
        (Err(limit_reason()), env)
    } else {
        match e {
            Datum::Symbol(k) => match env_lookup(env, k) {
                Some(v) => (Ok(v), env),
                None => (Err("unexpected symbol k="@ + k), env),
            },
            Datum::Number(_) => (Ok(e), env),
            Datum::Bool(_) => (Ok(e), env),
            Datum::Str(_) => (Ok(e), env),
            Datum::Func(_) => (Err("unexpected form"@), env),
            Datum::Lambda(_, _) => (Err("not supported type."@), env),
            Datum::List(items) => if items.len() == 0 {
                (Err("expected a non-empty list"@), env)
            } else {
                match items[0] {
                    Datum::Symbol(name) => if is_special_form(name) {
                        form_spec((fuel - 1) as nat, name, items.drop_first(), env)
                    } else {
                        call_spec((fuel - 1) as nat, items[0], items.drop_first(), env)
                    },
                    _ => call_spec((fuel - 1) as nat, items[0], items.drop_first(), env),
                }
            },
        }
    }
}

/// Evaluates `args` from index `i` on, left to right, stopping at the first error.
pub open spec fn eval_from(fuel: nat, args: Seq<Datum>, i: int, env: Seq<Frame>) -> (
    Result<Seq<Datum>, Seq<char>>,
    Seq<Frame>,
)
    decreases fuel, 1int, args.len() - i,
{
    if i < 0 || i >= args.len() {
        (Ok(Seq::empty()), env)
    } else {
        let (r, env1) = eval_spec(fuel, args[i], env);
        match r {
            Err(m) => (Err(m), env1),
            Ok(v) => {
                let (rest, env2) = eval_from(fuel, args, i + 1, env1);
                match rest {
                    Err(m) => (Err(m), env2),
                    Ok(vs) => (Ok(seq![v] + vs), env2),
                }
            },
        }
    }
}

/// Applies the value of `head` to `args`: a primitive to the evaluated arguments, a
/// lambda through `lambda_spec`.
pub open spec fn call_spec(fuel: nat, head: Datum, args: Seq<Datum>, env: Seq<Frame>) -> Outcome
    decreases fuel, 3int, 0int,
{
    let (h, env1) = eval_spec(fuel, head, env);
    match h {
        Err(m) => (Err(m), env1),
        Ok(Datum::Func(p)) => {
            let (vs, env2) = eval_from(fuel, args, 0, env1);
            match vs {
                Err(m) => (Err(m), env2),
                Ok(vals) => (apply_spec(p, vals), env2),
            }
        },
        Ok(Datum::Lambda(params, body)) => lambda_spec(fuel, *params, *body, args, env1),
        Ok(_) => (Err("first form must be a function"@), env1),
    }
}

/// Calls a lambda: the arguments are evaluated in `env`, bound to the parameters in a
/// new innermost frame, and the body is evaluated there; the frame is then dropped.
pub open spec fn lambda_spec(
    fuel: nat,
    params: Datum,
    body: Datum,
    args: Seq<Datum>,
    env: Seq<Frame>,
) -> Outcome
    decreases fuel, 2int, 0int,
{
    match params {
        Datum::List(ps) => match symbol_names(ps) {
            None => (Err("expected symbol in the argument list"@), env),
            Some(names) => if names.len() != args.len() {
                (
                    Err("expected "@ + int_text(names.len() as int) + " params, got "@ + int_text(
                        args.len() as int,
                    )),
                    env,
                )
            } else {
                let (vs, env1) = eval_from(fuel, args, 0, env);
                match vs {
                    Err(m) => (Err(m), env1),
                    Ok(vals) => {
                        let (r, frames) = eval_spec(fuel, body, seq![bind_all(names, vals)] + env1);
                        (r, frames.drop_first())
                    },
                }
            },
        },
        _ => (Err("expected params to be a list"@), env),
    }
}

/// Evaluates a special form, which decides itself which of its forms to evaluate.
pub open spec fn form_spec(fuel: nat, name: Seq<char>, args: Seq<Datum>, env: Seq<Frame>) -> Outcome
    decreases fuel, 3int, 0int,
{
    if name == "if"@ {
        if_spec(fuel, args, env)
    } else if name == "def"@ || name == "set"@ {
        def_spec(fuel, name, args, env)
    } else if name == "lambda"@ {
        (lambda_form_spec(args), env)
    } else if name == "quote"@ {
        (quote_spec(args), env)
    } else if name == "atom"@ {
        atom_spec(fuel, args, env)
    } else if name == "eq"@ {
        eq_spec(fuel, args, env)
    } else if name == "car"@ {
        (car_spec(args), env)
    } else if name == "cdr"@ {
        (cdr_spec(args), env)
    } else if name == "cons"@ {
        (cons_spec(args), env)
    } else if name == "cond"@ {
        cond_spec(fuel, args, env)
    } else if name == "do"@ {
        do_spec(fuel, args, env)
    } else if name == "loop"@ {
        loop_spec(fuel, args, env)
    } else {
        bool_spec(fuel, name, args, env)
    }
}

/// `(lambda params body)`: a lambda holding both forms unevaluated.
pub open spec fn lambda_form_spec(args: Seq<Datum>) -> Result<Datum, Seq<char>> {
    if args.len() != 2 {
        Err(arity_reason("lambda"@))
    } else {
        Ok(Datum::Lambda(Box::new(args[0]), Box::new(args[1])))
    }
}

/// `(quote a ...)`: the forms, unevaluated, in a list that starts with `quote`.
pub open spec fn quote_spec(args: Seq<Datum>) -> Result<Datum, Seq<char>> {
    if args.len() == 0 {
        Err(arity_reason("quote"@))
    } else {
        Ok(Datum::List(seq![quote_symbol()] + args))
    }
}

/// `(cond t1 r1 t2 r2 ...)`: an even number of forms, at least two.
pub open spec fn cond_spec(fuel: nat, args: Seq<Datum>, env: Seq<Frame>) -> Outcome
    decreases fuel, 2int, 0int,
{
    if args.len() < 2 || args.len() % 2 != 0 {
        (Err(arity_reason("cond"@)), env)
    } else {
        cond_from(fuel, args, 0, env)
    }
}

/// `(do f1 f2 ...)`: evaluates the forms in turn and gives the value of the last.
pub open spec fn do_spec(fuel: nat, args: Seq<Datum>, env: Seq<Frame>) -> Outcome
    decreases fuel, 2int, 0int,
{
    if args.len() == 0 {
        (Err(arity_reason("do"@)), env)
    } else {
        let (vs, env1) = eval_from(fuel, args, 0, env);
        match vs {
            Err(m) => (Err(m), env1),
            Ok(vals) => (Ok(vals.last()), env1),
        }
    }
}

/// `(loop f1 f2 ...)`: at least two forms; gives true once a form gives `return`.
pub open spec fn loop_spec(fuel: nat, args: Seq<Datum>, env: Seq<Frame>) -> Outcome
    decreases fuel, 2int, 0int,
{
    if args.len() < 2 {
        (Err(arity_reason("loop"@)), env)
    } else {
        loop_from(fuel, args, 0, env)
    }
}

/// Whether `b` holds the frames of `a` around an innermost frame that may differ.
pub open spec fn keeps_outer(a: Seq<Frame>, b: Seq<Frame>) -> bool {
    b.len() == a.len() && b.drop_first() == a.drop_first()
}

/// `(if test then else)`: the test is evaluated first and must give a boolean, which
/// picks the one form evaluated; then the number of forms must be three.
pub open spec fn if_spec(fuel: nat, args: Seq<Datum>, env: Seq<Frame>) -> Outcome
    decreases fuel, 2int, 0int,
{
    if args.len() == 0 {
        (Err(arity_reason("if"@)), env)
    } else {
        let (t, env1) = eval_spec(fuel, args[0], env);
        match t {
            Err(m) => (Err(m), env1),
            Ok(Datum::Bool(b)) => if args.len() != 3 {
                (Err(arity_reason("if"@)), env1)
            } else {
                eval_spec(fuel, if b { args[1] } else { args[2] }, env1)
            },
            Ok(_) => (Err("unexpected test form='"@ + render(args[0]) + "'"@), env1),
        }
    }
}

/// `(def name form)`: binds the value of the form in the innermost frame and returns
/// the name.
pub open spec fn def_spec(fuel: nat, name: Seq<char>, args: Seq<Datum>, env: Seq<Frame>) -> Outcome
    decreases fuel, 2int, 0int,
{
    if args.len() != 2 {
        (Err(arity_reason(name)), env)
    } else {
        let (v, env1) = eval_spec(fuel, args[1], env);
        match v {
            Err(m) => (Err(m), env1),
            Ok(val) => match args[0] {
                Datum::Symbol(k) => (Ok(args[0]), env_define(env1, k, val)),
                _ => (Err("unexpected var name"@), env1),
            },
        }
    }
}

/// `(atom form)`: false for a quoted list, true for every other value.
pub open spec fn atom_spec(fuel: nat, args: Seq<Datum>, env: Seq<Frame>) -> Outcome
    decreases fuel, 2int, 0int,
{
    if args.len() != 1 {
        (Err(arity_reason("atom"@)), env)
    } else {
        let (v, env1) = eval_spec(fuel, args[0], env);
        match v {
            Err(m) => (Err(m), env1),
            Ok(val) => (Ok(Datum::Bool(!is_quoted(val))), env1),
        }
    }
}

/// `(eq a b)`: whether the two values have the same text.
pub open spec fn eq_spec(fuel: nat, args: Seq<Datum>, env: Seq<Frame>) -> Outcome
    decreases fuel, 2int, 0int,
{
    if args.len() != 2 {
        (Err(arity_reason("eq"@)), env)
    } else {
        let (a, env1) = eval_spec(fuel, args[0], env);
        match a {
            Err(m) => (Err(m), env1),
            Ok(x) => {
                let (b, env2) = eval_spec(fuel, args[1], env1);
                match b {
                    Err(m) => (Err(m), env2),
                    Ok(y) => (Ok(Datum::Bool(render(x) == render(y))), env2),
                }
            },
        }
    }
}

/// The data a quoted form `l` holds: for `(quote (a b ...))`, whose one quoted element
/// is a list, the elements of that list; for `(quote a b ...)`, the quoted elements.
pub open spec fn quoted_items(l: Seq<Datum>) -> Seq<Datum> {
    if l.len() == 2 {
        match l[1] {
            Datum::List(x) => x,
            _ => l.drop_first(),
        }
    } else {
        l.drop_first()
    }
}

/// `(car (quote (a ...)))` or `(car (quote a ...))`: the first quoted datum. The form is
/// not evaluated.
pub open spec fn car_spec(args: Seq<Datum>) -> Result<Datum, Seq<char>> {
    if args.len() != 1 {
        Err(arity_reason("car"@))
    } else {
        match args[0] {
            Datum::List(l) => if is_quoted(args[0]) && quoted_items(l).len() >= 1 {
                Ok(quoted_items(l)[0])
            } else {
                Err("car can only result a static list"@)
            },
            _ => Err("car can only result a static list"@),
        }
    }
}

/// `(cdr (quote (a b ...)))`: the quoted list `(quote b ...)`; and `(cdr (quote a b c
/// ...))`: the quoted list without its first element, for at least three quoted
/// elements. The form is not evaluated.
pub open spec fn cdr_spec(args: Seq<Datum>) -> Result<Datum, Seq<char>> {
    if args.len() != 1 {
        Err(arity_reason("cdr"@))
    } else {
        match args[0] {
            Datum::List(l) => if l.len() == 2 && l[0] == quote_symbol() && l[1] is List
                && l[1]->List_0.len() >= 1 {
                Ok(Datum::List(seq![quote_symbol()] + l[1]->List_0.drop_first()))
            } else if l.len() < 4 {
                Err("cdr: the len of list must >= 4"@)
            } else if l[0] != quote_symbol() {
                Err("cdr can only result a static list"@)
            } else {
                Ok(Datum::List(seq![quote_symbol()] + l.subrange(2, l.len() as int)))
            },
            _ => Err("cdr can only result a static list"@),
        }
    }
}

/// `(cons (quote ...) (quote ...))`: the quoted data of both, joined and not quoted
/// again. The forms are not evaluated.
pub open spec fn cons_spec(args: Seq<Datum>) -> Result<Datum, Seq<char>> {
    if args.len() != 2 {
        Err(arity_reason("cons"@))
    } else if !is_quoted(args[0]) || !is_quoted(args[1]) {
        Err("cons can only result a static list"@)
    } else {
        match (args[0], args[1]) {
            (Datum::List(a), Datum::List(b)) => Ok(
                Datum::List(quoted_items(a) + quoted_items(b)),
            ),
            _ => Err("cons can only result a static list"@),
        }
    }
}

/// `(cond t1 r1 t2 r2 ...)` from the pair at `i` on: the value of the result whose test
/// is the first to give true.
pub open spec fn cond_from(fuel: nat, args: Seq<Datum>, i: int, env: Seq<Frame>) -> Outcome
    decreases fuel, 1int, args.len() - i,
{
    if i < 0 || i + 1 >= args.len() {
        (Err("cond: no test matched"@), env)
    } else {
        let (t, env1) = eval_spec(fuel, args[i], env);
        match t {
            Err(m) => (Err(m), env1),
            Ok(Datum::Bool(true)) => eval_spec(fuel, args[i + 1], env1),
            Ok(_) => cond_from(fuel, args, i + 2, env1),
        }
    }
}

/// `(loop f1 f2 ...)` from the form at `i` on: the forms are evaluated in turn, over and
/// over, until one gives the symbol `return`; one that gives `continue` starts the
/// round again. Each step takes one unit of `fuel`.
pub open spec fn loop_from(fuel: nat, args: Seq<Datum>, i: int, env: Seq<Frame>) -> Outcome
    decreases fuel, 1int, 0int,
{
    if fuel == 0 {
        (Err(limit_reason()), env)
    } else if i < 0 || i >= args.len() {
        (Err(limit_reason()), env)
    } else {
        let (r, env1) = eval_spec(fuel, args[i], env);
        match r {
            Err(m) => (Err(m), env1),
            Ok(v) => if v == Datum::Symbol("return"@) {
                (Ok(Datum::Bool(true)), env1)
            } else if v == Datum::Symbol("continue"@) {
                loop_from((fuel - 1) as nat, args, 0, env1)
            } else {
                loop_from((fuel - 1) as nat, args, if i + 1 >= args.len() { 0 } else { i + 1 }, env1)
            },
        }
    }
}

/// `(or a b)` and `(and a b)`: short-circuit combinators of forms that must give
/// booleans; the second form is evaluated only when the first does not decide, that is
/// when it gives false for `or` and true for `and`.
pub open spec fn bool_spec(fuel: nat, name: Seq<char>, args: Seq<Datum>, env: Seq<Frame>) -> Outcome
    decreases fuel, 2int, 0int,
{
    if args.len() != 2 {
        (Err(arity_reason(name)), env)
    } else {
        let (a, env1) = eval_spec(fuel, args[0], env);
        match a {
            Err(m) => (Err(m), env1),
            Ok(Datum::Bool(x)) => if x != (name == "and"@) {
                (Ok(Datum::Bool(x)), env1)
            } else {
                let (b, env2) = eval_spec(fuel, args[1], env1);
                match b {
                    Err(m) => (Err(m), env2),
                    Ok(Datum::Bool(y)) => (Ok(Datum::Bool(y)), env2),
                    Ok(_) => (Err(name + ": expected a boolean"@), env2),
                }
            },
            Ok(_) => (Err(name + ": expected a boolean"@), env1),
        }
    }
}

} // verus!

use vstd::prelude::*;
use crate::builtins::{apply_primitive, result_view};
use crate::env::{env_get, frame_insert, frame_view, Environment, Frame};
use crate::expr::{reason, views, Datum, Expression, GError, Lambda};
use crate::reader::{parse, parse_at, tokenize, tokens_of};
use crate::render::natural_text;
use crate::semantics::{
    arity_reason, atom_spec, bind_all, bool_spec, call_spec, car_spec, cdr_spec, cond_from,
    cond_spec, cons_spec, def_spec, do_spec, eq_spec, eval_from, eval_spec, form_spec, if_spec,
    is_quoted, is_special_form, keeps_outer, lambda_form_spec, lambda_spec, loop_from, loop_spec,
    quote_spec, quote_symbol, quoted_items, symbol_names, Outcome,
};
use crate::text::{same_text, texts};

verus! {

/// The bound on nested evaluation steps that `eval` allows.
pub const EVAL_LIMIT: u64 = 0xffff_ffff_ffff_ffff;

/// What reading the first expression of `text` and evaluating it in `env` gives.
pub open spec fn parse_eval_spec(text: Seq<char>, env: Seq<Frame>) -> Outcome {
    match parse_at(tokens_of(text), 0) {
        Err(m) => (Err(m), env),
        Ok((d, _)) => eval_spec(EVAL_LIMIT as nat, d, env),
    }
}

/// Evaluates `exp` in `env`. Numbers, booleans and strings give themselves, a symbol
/// its value in the innermost frame that binds it, and a list either a special form or
/// the application of its first element to the rest.
pub fn eval(exp: &Expression, env: &mut Environment) -> (r: Result<Expression, GError>)
    ensures
        (result_view(r), final(env)@) == eval_spec(EVAL_LIMIT as nat, exp@, old(env)@),
        keeps_outer(old(env)@, final(env)@),
{
    eval_bounded(exp, env, EVAL_LIMIT)
}

/// Reads the first expression of `expr` and evaluates it in `env`; a text that does not
/// read fails before anything is evaluated.
pub fn parse_eval(expr: String, env: &mut Environment) -> (r: Result<Expression, GError>)
    ensures
        (result_view(r), final(env)@) == parse_eval_spec(expr@, old(env)@),
        keeps_outer(old(env)@, final(env)@),
{
    let tokens = tokenize(expr);
    match parse(tokens.as_slice(), 0) {
        Err(g) => Err(g),
        Ok((e, _)) => eval(&e, env),
    }
}

fn arity_error(name: &str) -> (e: GError)
    ensures
        e@ == arity_reason(name@),
{
    let mut s = String::from_str(name);
    s.append(": wrong number of forms");
    GError::Reason(s)
}

fn is_form_name(name: &String) -> (r: bool)
    ensures
        r == is_special_form(name@),
{
    same_text(name, "if") || same_text(name, "def") || same_text(name, "set") || same_text(
        name,
        "lambda",
    ) || same_text(name, "quote") || same_text(name, "atom") || same_text(name, "eq")
        || same_text(name, "car") || same_text(name, "cdr") || same_text(name, "cons")
        || same_text(name, "cond") || same_text(name, "do") || same_text(name, "loop")
        || same_text(name, "or") || same_text(name, "and")
}

/// The elements of a non-empty list after the first.
fn tail(items: &Vec<Expression>) -> (r: &[Expression])
    requires
        items@.len() >= 1,
    ensures
        r@ == items@.drop_first(),
{
    let s = items.as_slice();
    &s[1..s.len()]
}

/// Evaluates `exp` in `env`, allowing at most `fuel` nested steps; a deeper evaluation,
/// or a `loop` that runs longer, fails with "evaluation limit reached".
pub fn eval_bounded(exp: &Expression, env: &mut Environment, fuel: u64) -> (r: Result<
    Expression,
    GError,
>)
    ensures
        (result_view(r), final(env)@) == eval_spec(fuel as nat, exp@, old(env)@),
        keeps_outer(old(env)@, final(env)@),
    decreases fuel, 0int, 0int,
{
    if fuel == 0 {
        return Err(reason("evaluation limit reached"));
    }
    match exp {
        Expression::Symbol(k) => match env_get(k, env) {
            Some(v) => Ok(v),
            None => {
                let mut s = String::from_str("unexpected symbol k=");
                s.append(k.as_str());
                Err(GError::Reason(s))
            },
        },
        Expression::Number(n) => Ok(Expression::Number(*n)),
        Expression::Bool(b) => Ok(Expression::Bool(*b)),
        Expression::String(s) => Ok(Expression::String(s.clone())),
        Expression::Func(_) => Err(reason("unexpected form")),
        Expression::Lambda(_) => Err(reason("not supported type.")),
        Expression::List(items) => {
            if items.len() == 0 {
                return Err(reason("expected a non-empty list"));
            }
            let args = tail(items);
            proof {
                if let Datum::List(ds) = exp@ {
                    assert(ds.drop_first() =~= views(args@));
                    assert(ds[0] == items@[0]@);
                }
            }
            match &items[0] {
                Expression::Symbol(name) => {
                    if is_form_name(name) {
                        special_form(name, args, env, fuel - 1)
                    } else {
                        call(&items[0], args, env, fuel - 1)
                    }
                },
                _ => call(&items[0], args, env, fuel - 1),
            }
        },
    }
}

/// Evaluates `args` left to right, stopping at the first error.
fn eval_args(args: &[Expression], env: &mut Environment, fuel: u64) -> (r: Result<
    Vec<Expression>,
    GError,
>)
    ensures
        ({
            let (want, frames) = eval_from(fuel as nat, views(args@), 0, old(env)@);
            &&& final(env)@ == frames
            &&& match r {
                Ok(vals) => want == Ok::<Seq<Datum>, Seq<char>>(views(vals@)),
                Err(g) => want == Err::<Seq<Datum>, Seq<char>>(g@),
            }
        }),
        keeps_outer(old(env)@, final(env)@),
    decreases fuel, 1int, args@.len(),
{
    let ghost all = views(args@);
    let ghost env0 = env@;
    let mut vals: Vec<Expression> = Vec::new();
    let mut i: usize = 0;
    while i < args.len()
        invariant
            i <= args@.len(),
            all == views(args@),
            env0 == old(env)@,
            keeps_outer(env0, env@),
            ({
                let (want, frames) = eval_from(fuel as nat, all, 0, env0);
                let (rest, frames_i) = eval_from(fuel as nat, all, i as int, env@);
                &&& frames == frames_i
                &&& match rest {
                    Ok(vs) => want == Ok::<Seq<Datum>, Seq<char>>(views(vals@) + vs),
                    Err(m) => want == Err::<Seq<Datum>, Seq<char>>(m),
                }
            }),
        decreases args@.len() - i,
    {
        let ghost env_i = env@;
        let v = eval_bounded(&args[i], env, fuel);
        proof {
            assert(all[i as int] == args@[i as int]@);
        }
        match v {
            Err(g) => {
                proof {
                    assert(eval_from(fuel as nat, all, i as int, env_i) == (
                        Err::<Seq<Datum>, Seq<char>>(g@),
                        env@,
                    ));
                }
                return Err(g);
            },
            Ok(x) => {
                let ghost before = views(vals@);
                let ghost xv = x@;
                vals.push(x);
                proof {
                    assert(views(vals@) =~= before.push(xv));
                    let (rest, _) = eval_from(fuel as nat, all, i as int + 1, env@);
                    match rest {
                        Ok(vs) => {
                            assert(before + (seq![xv] + vs) =~= views(vals@) + vs);
                        },
                        Err(_) => {},
                    }
                }
                i = i + 1;
            },
        }
    }
    proof {
        assert(views(vals@) + Seq::<Datum>::empty() =~= views(vals@));
    }
    Ok(vals)
}

/// Applies the value of `head` to `args`: a primitive to the evaluated arguments, a
/// lambda through `call_lambda`; any other value fails.
fn call(head: &Expression, args: &[Expression], env: &mut Environment, fuel: u64) -> (r: Result<
    Expression,
    GError,
>)
    ensures
        (result_view(r), final(env)@) == call_spec(fuel as nat, head@, views(args@), old(env)@),
        keeps_outer(old(env)@, final(env)@),
    decreases fuel, 3int, 0int,
{
    let h = match eval_bounded(head, env, fuel) {
        Ok(h) => h,
        Err(g) => {
            return Err(g);
        },
    };
    match h {
        Expression::Func(p) => {
            let vals = match eval_args(args, env, fuel) {
                Ok(vals) => vals,
                Err(g) => {
                    return Err(g);
                },
            };
            apply_primitive(p, &vals)
        },
        Expression::Lambda(l) => call_lambda(&l.params, &l.body, args, env, fuel),
        _ => Err(reason("first form must be a function")),
    }
}

/// The names of a parameter list, if every element is a symbol.
fn symbol_list(ps: &Vec<Expression>) -> (r: Option<Vec<String>>)
    ensures
        match r {
            Some(ns) => symbol_names(views(ps@)) == Some(texts(ns@)),
            None => symbol_names(views(ps@)) is None,
        },
{
    let ghost a = views(ps@);
    let mut ns: Vec<String> = Vec::new();
    let mut i: usize = 0;
    while i < ps.len()
        invariant
            i <= ps.len(),
            a == views(ps@),
            symbol_names(a.take(i as int)) == Some(texts(ns@)),
        decreases ps.len() - i,
    {
        proof {
            assert(a.take(i + 1).drop_last() =~= a.take(i as int));
        }
        match &ps[i] {
            Expression::Symbol(n) => {
                let ghost before = texts(ns@);
                ns.push(n.clone());
                proof {
                    assert(texts(ns@) =~= before.push(n@));
                }
            },
            _ => {
                proof {
                    lemma_names_prefix(a, i as int + 1);
                }
                return None;
            },
        }
        i = i + 1;
    }
    proof {
        assert(a.take(ps.len() as int) =~= a);
    }
    Some(ns)
}

proof fn lemma_names_prefix(a: Seq<Datum>, n: int)
    requires
        0 <= n <= a.len(),
        symbol_names(a.take(n)) is None,
    ensures
        symbol_names(a) is None,
    decreases a.len() - n,
{
    if n < a.len() {
        assert(a.take(n + 1).drop_last() =~= a.take(n));
        lemma_names_prefix(a, n + 1);
    } else {
        assert(a.take(n) =~= a);
    }
}

/// The frame binding each name to the value at the same place.
fn bind_frame(names: &Vec<String>, vals: &Vec<Expression>) -> (r: Vec<(String, Expression)>)
    requires
        names.len() == vals.len(),
    ensures
        frame_view(r@) == bind_all(texts(names@), views(vals@)),
{
    let ghost ns = texts(names@);
    let ghost vs = views(vals@);
    let mut data: Vec<(String, Expression)> = Vec::new();
    let mut i: usize = 0;
    assert(frame_view(data@) =~= bind_all(ns.take(0), vs.take(0)));
    while i < names.len()
        invariant
            i <= names.len(),
            names.len() == vals.len(),
            ns == texts(names@),
            vs == views(vals@),
            frame_view(data@) == bind_all(ns.take(i as int), vs.take(i as int)),
        decreases names.len() - i,
    {
        proof {
            assert(ns.take(i + 1).drop_last() =~= ns.take(i as int));
            assert(vs.take(i + 1).drop_last() =~= vs.take(i as int));
        }
        frame_insert(&mut data, names[i].clone(), vals[i].duplicate());
        i = i + 1;
    }
    proof {
        assert(ns.take(names.len() as int) =~= ns);
        assert(vs.take(names.len() as int) =~= vs);
    }
    data
}

/// Calls a lambda: checks the parameter list and the number of arguments, evaluates
/// the arguments in `env`, binds them in a new innermost frame, evaluates the body
/// there and drops the frame.
fn call_lambda(
    params: &Expression,
    body: &Expression,
    args: &[Expression],
    env: &mut Environment,
    fuel: u64,
) -> (r: Result<Expression, GError>)
    ensures
        (result_view(r), final(env)@) == lambda_spec(
            fuel as nat,
            params@,
            body@,
            views(args@),
            old(env)@,
        ),
        keeps_outer(old(env)@, final(env)@),
    decreases fuel, 2int, 0int,
{
    let ps = match params {
        Expression::List(ps) => ps,
        _ => {
            return Err(reason("expected params to be a list"));
        },
    };
    proof {
        if let Datum::List(ds) = params@ {
            assert(ds =~= views(ps@));
        }
    }
    let names = match symbol_list(ps) {
        Some(ns) => ns,
        None => {
            return Err(reason("expected symbol in the argument list"));
        },
    };
    if names.len() != args.len() {
        let mut s = String::from_str("expected ");
        s.append(natural_text(names.len() as u64).as_str());
        s.append(" params, got ");
        s.append(natural_text(args.len() as u64).as_str());
        return Err(GError::Reason(s));
    }
    let vals = match eval_args(args, env, fuel) {
        Ok(vals) => vals,
        Err(g) => {
            return Err(g);
        },
    };
    proof {
        lemma_eval_from_len(fuel as nat, views(args@), 0, old(env)@);
        assert(views(vals@).len() == vals@.len());
    }
    let frame = bind_frame(&names, &vals);
    let ghost env1 = env@;
    let mut parent = Environment { data: Vec::new(), outer: None };
    std::mem::swap(env, &mut parent);
    let mut child = Environment { data: frame, outer: Some(Box::new(parent)) };
    proof {
        assert(child@ =~= seq![bind_all(texts(names@), views(vals@))] + env1);
    }
    let ghost child0 = child@;
    let r = eval_bounded(body, &mut child, fuel);
    let ghost child1 = child@;
    let ghost data1 = frame_view(child.data@);
    match child.outer {
        Some(b) => {
            proof {
                assert(child1 == seq![data1] + b@);
                assert(child1.drop_first() =~= b@);
                assert(child0.drop_first() =~= env1);
            }
            *env = *b;
        },
        None => {
            proof {
                assert(child1.len() == 1);
                assert(child0.len() == 1 + env1.len());
                assert(false);
            }
        },
    }
    r
}

/// Evaluates the special form `name`.
fn special_form(name: &String, args: &[Expression], env: &mut Environment, fuel: u64) -> (r: Result<
    Expression,
    GError,
>)
    ensures
        (result_view(r), final(env)@) == form_spec(fuel as nat, name@, views(args@), old(env)@),
        keeps_outer(old(env)@, final(env)@),
    decreases fuel, 3int, 0int,
{
    proof {
        reveal_strlit("or");
    }
    if same_text(name, "if") {
        func_if(args, env, fuel)
    } else if same_text(name, "def") || same_text(name, "set") {
        func_set(name, args, env, fuel)
    } else if same_text(name, "lambda") {
        func_lambda(args)
    } else if same_text(name, "quote") {
        func_quote(args)
    } else if same_text(name, "atom") {
        func_atom(args, env, fuel)
    } else if same_text(name, "eq") {
        func_eq(args, env, fuel)
    } else if same_text(name, "car") {
        func_car(args)
    } else if same_text(name, "cdr") {
        func_cdr(args)
    } else if same_text(name, "cons") {
        func_cons(args)
    } else if same_text(name, "cond") {
        func_cond(args, env, fuel)
    } else if same_text(name, "do") {
        func_do(args, env, fuel)
    } else if same_text(name, "loop") {
        func_loop(args, env, fuel)
    } else if same_text(name, "and") {
        func_and(args, env, fuel)
    } else if same_text(name, "or") {
        func_or(args, env, fuel)
    } else {
        let r = bool_form(name, args, env, fuel);
        r
    }
}

/// `(if test then else)`: evaluates the test, which must give a boolean; then, with
/// exactly three forms, evaluates only the one the test picks.
pub fn func_if(args: &[Expression], env: &mut Environment, fuel: u64) -> (r: Result<
    Expression,
    GError,
>)
    ensures
        (result_view(r), final(env)@) == if_spec(fuel as nat, views(args@), old(env)@),
        keeps_outer(old(env)@, final(env)@),
    decreases fuel, 2int, 0int,
{
    if args.len() == 0 {
        return Err(arity_error("if"));
    }
    let t = match eval_bounded(&args[0], env, fuel) {
        Ok(t) => t,
        Err(g) => {
            return Err(g);
        },
    };
    match t {
        Expression::Bool(b) => {
            if args.len() != 3 {
                Err(arity_error("if"))
            } else if b {
                eval_bounded(&args[1], env, fuel)
            } else {
                eval_bounded(&args[2], env, fuel)
            }
        },
        _ => {
            let mut s = String::from_str("unexpected test form='");
            s.append(args[0].to_string().as_str());
            s.append("'");
            Err(GError::Reason(s))
        },
    }
}

/// `(def name form)` and `(set name form)`: evaluates the form and binds its value to
/// the name in the innermost frame; gives the name.
pub fn func_set(name: &String, args: &[Expression], env: &mut Environment, fuel: u64) -> (r:
    Result<Expression, GError>)
    ensures
        (result_view(r), final(env)@) == def_spec(fuel as nat, name@, views(args@), old(env)@),
        keeps_outer(old(env)@, final(env)@),
    decreases fuel, 2int, 0int,
{
    if args.len() != 2 {
        let mut s = name.clone();
        s.append(": wrong number of forms");
        return Err(GError::Reason(s));
    }
    let v = match eval_bounded(&args[1], env, fuel) {
        Ok(v) => v,
        Err(g) => {
            return Err(g);
        },
    };
    match &args[0] {
        Expression::Symbol(k) => {
            let ghost before = env@;
            env.define(k.clone(), v);
            proof {
                assert(env@.drop_first() =~= before.drop_first());
            }
            Ok(args[0].duplicate())
        },
        _ => Err(reason("unexpected var name")),
    }
}

/// `(lambda params body)`: a lambda holding both forms, unevaluated.
pub fn func_lambda(args: &[Expression]) -> (r: Result<Expression, GError>)
    ensures
        result_view(r) == lambda_form_spec(views(args@)),
{
    if args.len() != 2 {
        return Err(arity_error("lambda"));
    }
    Ok(
        Expression::Lambda(
            Lambda { params: Box::new(args[0].duplicate()), body: Box::new(args[1].duplicate()) },
        ),
    )
}

/// A list of the symbol `quote` followed by copies of `rest[from..]`.
fn quoted_list(rest: &[Expression], from: usize) -> (r: Expression)
    requires
        from <= rest@.len(),
    ensures
        r@ == Datum::List(seq![quote_symbol()] + views(rest@).subrange(from as int, rest@.len() as int)),
{
    let mut out: Vec<Expression> = Vec::new();
    out.push(Expression::Symbol(String::from_str("quote")));
    let mut i: usize = from;
    while i < rest.len()
        invariant
            from <= i <= rest@.len(),
            views(out@) == seq![quote_symbol()] + views(rest@).subrange(from as int, i as int),
        decreases rest@.len() - i,
    {
        let ghost before = views(out@);
        let x = rest[i].duplicate();
        out.push(x);
        proof {
            assert(views(out@) =~= before.push(rest@[i as int]@));
            assert(views(rest@).subrange(from as int, i + 1) =~= views(rest@).subrange(
                from as int,
                i as int,
            ).push(rest@[i as int]@));
            assert(views(out@) =~= seq![quote_symbol()] + views(rest@).subrange(from as int, i + 1));
        }
        i = i + 1;
    }
    let r = Expression::List(out);
    proof {
        if let Datum::List(ds) = r@ {
            assert(ds =~= views(out@));
        }
    }
    r
}

/// `(quote a ...)`: the forms, unevaluated, in a list that starts with `quote`.
pub fn func_quote(args: &[Expression]) -> (r: Result<Expression, GError>)
    ensures
        result_view(r) == quote_spec(views(args@)),
{
    if args.len() == 0 {
        return Err(arity_error("quote"));
    }
    let r = quoted_list(args, 0);
    proof {
        assert(views(args@).subrange(0, args@.len() as int) =~= views(args@));
    }
    Ok(r)
}

/// Whether `e` is a list whose first element is the symbol `quote`.
fn quoted(e: &Expression) -> (r: bool)
    ensures
        r == is_quoted(e@),
{
    proof {
        reveal_strlit("quote");
    }
    match e {
        Expression::List(l) => {
            if l.len() == 0 {
                return false;
            }
            proof {
                if let Datum::List(ds) = e@ {
                    assert(ds[0] == l@[0]@);
                }
            }
            match &l[0] {
                Expression::Symbol(s) => same_text(s, "quote"),
                _ => false,
            }
        },
        _ => false,
    }
}

/// `(atom form)`: false for a quoted list, true for every other value.
pub fn func_atom(args: &[Expression], env: &mut Environment, fuel: u64) -> (r: Result<
    Expression,
    GError,
>)
    ensures
        (result_view(r), final(env)@) == atom_spec(fuel as nat, views(args@), old(env)@),
        keeps_outer(old(env)@, final(env)@),
    decreases fuel, 2int, 0int,
{
    if args.len() != 1 {
        return Err(arity_error("atom"));
    }
    let v = match eval_bounded(&args[0], env, fuel) {
        Ok(v) => v,
        Err(g) => {
            return Err(g);
        },
    };
    Ok(Expression::Bool(!quoted(&v)))
}

/// `(eq a b)`: whether the two values have the same text.
pub fn func_eq(args: &[Expression], env: &mut Environment, fuel: u64) -> (r: Result<
    Expression,
    GError,
>)
    ensures
        (result_view(r), final(env)@) == eq_spec(fuel as nat, views(args@), old(env)@),
        keeps_outer(old(env)@, final(env)@),
    decreases fuel, 2int, 0int,
{
    if args.len() != 2 {
        return Err(arity_error("eq"));
    }
    let a = match eval_bounded(&args[0], env, fuel) {
        Ok(v) => v,
        Err(g) => {
            return Err(g);
        },
    };
    let b = match eval_bounded(&args[1], env, fuel) {
        Ok(v) => v,
        Err(g) => {
            return Err(g);
        },
    };
    let ta = a.to_string();
    let tb = b.to_string();
    Ok(Expression::Bool(ta.eq(&tb)))
}

/// Copies of the data a quoted form `l` holds: the elements of its one quoted list, or
/// its quoted elements.
fn quoted_items_of(l: &Vec<Expression>) -> (r: Vec<Expression>)
    requires
        l@.len() >= 1,
    ensures
        views(r@) == quoted_items(views(l@)),
{
    if l.len() == 2 {
        if let Expression::List(x) = &l[1] {
            let r = crate::expr::duplicate_all(x);
            proof {
                if let Datum::List(ds) = views(l@)[1] {
                    assert(ds =~= views(x@));
                }
            }
            return r;
        }
    }
    unquoted(l)
}

/// `(car (quote (a ...)))` or `(car (quote a ...))`: the first quoted datum; the form
/// is not evaluated.
pub fn func_car(args: &[Expression]) -> (r: Result<Expression, GError>)
    ensures
        result_view(r) == car_spec(views(args@)),
{
    if args.len() != 1 {
        return Err(arity_error("car"));
    }
    if quoted(&args[0]) {
        if let Expression::List(l) = &args[0] {
            proof {
                if let Datum::List(ds) = args@[0]@ {
                    assert(ds =~= views(l@));
                }
            }
            let items = quoted_items_of(l);
            if items.len() >= 1 {
                return Ok(items[0].duplicate());
            }
        }
    }
    proof {
        if let Datum::List(ds) = args@[0]@ {
            if let Expression::List(l) = args@[0] {
                assert(ds =~= views(l@));
            }
        }
    }
    Err(reason("car can only result a static list"))
}

/// `(cdr (quote (a b ...)))`: the quoted list `(quote b ...)`; and `(cdr (quote a b c
/// ...))`: the quoted list without its first element, for at least three quoted
/// elements. The form is not evaluated.
pub fn func_cdr(args: &[Expression]) -> (r: Result<Expression, GError>)
    ensures
        result_view(r) == cdr_spec(views(args@)),
{
    if args.len() != 1 {
        return Err(arity_error("cdr"));
    }
    match &args[0] {
        Expression::List(l) => {
            proof {
                if let Datum::List(ds) = args@[0]@ {
                    assert(ds =~= views(l@));
                }
            }
            if l.len() == 2 && quoted(&args[0]) {
                if let Expression::List(x) = &l[1] {
                    if x.len() >= 1 {
                        let r = quoted_list(x.as_slice(), 1);
                        proof {
                            assert(views(x@).subrange(1, x@.len() as int) =~= views(
                                x@,
                            ).drop_first());
                            if let Datum::List(ds) = views(l@)[1] {
                                assert(ds =~= views(x@));
                            }
                        }
                        return Ok(r);
                    }
                }
                proof {
                    if let Datum::List(ds) = views(l@)[1] {
                        if let Expression::List(x) = l@[1] {
                            assert(ds =~= views(x@));
                        }
                    }
                }
            }
            if l.len() < 4 {
                return Err(reason("cdr: the len of list must >= 4"));
            }
            if !quoted(&args[0]) {
                return Err(reason("cdr can only result a static list"));
            }
            Ok(quoted_list(l.as_slice(), 2))
        },
        _ => Err(reason("cdr can only result a static list")),
    }
}

/// Copies of the elements of `l` after the first.
fn unquoted(l: &Vec<Expression>) -> (r: Vec<Expression>)
    requires
        l@.len() >= 1,
    ensures
        views(r@) == views(l@).drop_first(),
{
    let mut out: Vec<Expression> = Vec::new();
    let mut i: usize = 1;
    while i < l.len()
        invariant
            1 <= i <= l@.len(),
            views(out@) == views(l@).subrange(1, i as int),
        decreases l@.len() - i,
    {
        let ghost before = views(out@);
        let x = l[i].duplicate();
        out.push(x);
        proof {
            assert(views(out@) =~= before.push(l@[i as int]@));
            assert(views(l@).subrange(1, i + 1) =~= views(l@).subrange(1, i as int).push(
                l@[i as int]@,
            ));
        }
        i = i + 1;
    }
    proof {
        assert(views(l@).subrange(1, l@.len() as int) =~= views(l@).drop_first());
    }
    out
}

/// `(cons (quote ...) (quote ...))`: the quoted data of both, joined and not quoted
/// again; the forms are not evaluated.
pub fn func_cons(args: &[Expression]) -> (r: Result<Expression, GError>)
    ensures
        result_view(r) == cons_spec(views(args@)),
{
    if args.len() != 2 {
        return Err(arity_error("cons"));
    }
    if !quoted(&args[0]) || !quoted(&args[1]) {
        return Err(reason("cons can only result a static list"));
    }
    match (&args[0], &args[1]) {
        (Expression::List(a), Expression::List(b)) => {
            proof {
                if let Datum::List(da) = args@[0]@ {
                    assert(da =~= views(a@));
                }
                if let Datum::List(db) = args@[1]@ {
                    assert(db =~= views(b@));
                }
            }
            let mut joined = quoted_items_of(a);
            let mut rest = quoted_items_of(b);
            let ghost ja = views(joined@);
            let ghost jb = views(rest@);
            joined.append(&mut rest);
            let r = Expression::List(joined);
            proof {
                assert(views(joined@) =~= ja + jb);
                if let Datum::List(ds) = r@ {
                    assert(ds =~= views(joined@));
                }
            }
            Ok(r)
        },
        _ => Err(reason("cons can only result a static list")),
    }
}

/// `(cond t1 r1 t2 r2 ...)`: the value of the result whose test is the first to give
/// true.
pub fn func_cond(args: &[Expression], env: &mut Environment, fuel: u64) -> (r: Result<
    Expression,
    GError,
>)
    ensures
        (result_view(r), final(env)@) == cond_spec(fuel as nat, views(args@), old(env)@),
        keeps_outer(old(env)@, final(env)@),
    decreases fuel, 2int, 0int,
{
    if args.len() < 2 || args.len() % 2 != 0 {
        return Err(arity_error("cond"));
    }
    let ghost a = views(args@);
    let ghost env0 = env@;
    let mut i: usize = 0;
    while i < args.len()
        invariant
            a == views(args@),
            i <= args@.len(),
            i % 2 == 0,
            args@.len() % 2 == 0,
            env0 == old(env)@,
            keeps_outer(env0, env@),
            cond_spec(fuel as nat, a, env0) == cond_from(fuel as nat, a, i as int, env@),
        decreases args@.len() - i,
    {
        let ghost env_i = env@;
        let t = match eval_bounded(&args[i], env, fuel) {
            Ok(t) => t,
            Err(g) => {
                proof {
                    assert(a[i as int] == args@[i as int]@);
                    assert(cond_from(fuel as nat, a, i as int, env_i) == (
                        Err::<Datum, Seq<char>>(g@),
                        env@,
                    ));
                }
                return Err(g);
            },
        };
        proof {
            assert(a[i as int] == args@[i as int]@);
            assert(a[i + 1] == args@[i + 1]@);
        }
        match t {
            Expression::Bool(true) => {
                return eval_bounded(&args[i + 1], env, fuel);
            },
            _ => {},
        }
        i = i + 2;
    }
    Err(reason("cond: no test matched"))
}

/// `(do f1 f2 ...)`: evaluates the forms in turn and gives the value of the last.
pub fn func_do(args: &[Expression], env: &mut Environment, fuel: u64) -> (r: Result<
    Expression,
    GError,
>)
    ensures
        (result_view(r), final(env)@) == do_spec(fuel as nat, views(args@), old(env)@),
        keeps_outer(old(env)@, final(env)@),
    decreases fuel, 2int, 0int,
{
    if args.len() == 0 {
        return Err(arity_error("do"));
    }
    let mut vals = match eval_args(args, env, fuel) {
        Ok(vals) => vals,
        Err(g) => {
            return Err(g);
        },
    };
    proof {
        lemma_eval_from_len(fuel as nat, views(args@), 0, old(env)@);
    }
    match vals.pop() {
        Some(v) => Ok(v),
        None => Err(reason("do: no value")),
    }
}

proof fn lemma_eval_from_len(fuel: nat, args: Seq<Datum>, i: int, env: Seq<Frame>)
    requires
        0 <= i <= args.len(),
    ensures
        eval_from(fuel, args, i, env).0 matches Ok(vs) ==> vs.len() == args.len() - i,
    decreases args.len() - i,
{
    if i < args.len() {
        let (r, env1) = eval_spec(fuel, args[i], env);
        if r is Ok {
            lemma_eval_from_len(fuel, args, i + 1, env1);
        }
    }
}

/// `(loop f1 f2 ...)`: evaluates the forms in turn, over and over, until one gives the
/// symbol `return`, and then gives true; a form that gives `continue` starts the round
/// again. Each step takes one unit of `fuel`.
pub fn func_loop(args: &[Expression], env: &mut Environment, fuel: u64) -> (r: Result<
    Expression,
    GError,
>)
    ensures
        (result_view(r), final(env)@) == loop_spec(fuel as nat, views(args@), old(env)@),
        keeps_outer(old(env)@, final(env)@),
    decreases fuel, 2int, 0int,
{
    proof {
        reveal_strlit("return");
        reveal_strlit("continue");
    }
    if args.len() < 2 {
        return Err(arity_error("loop"));
    }
    let ghost a = views(args@);
    let ghost env0 = env@;
    let mut f: u64 = fuel;
    let mut i: usize = 0;
    loop
        invariant
            a == views(args@),
            args@.len() >= 2,
            i < args@.len(),
            f <= fuel,
            env0 == old(env)@,
            keeps_outer(env0, env@),
            loop_spec(fuel as nat, a, env0) == loop_from(f as nat, a, i as int, env@),
        decreases f,
    {
        if f == 0 {
            return Err(reason("evaluation limit reached"));
        }
        let ghost env_i = env@;
        proof {
            assert(a[i as int] == args@[i as int]@);
        }
        let v = match eval_bounded(&args[i], env, f) {
            Ok(v) => v,
            Err(g) => {
                proof {
                    assert(loop_from(f as nat, a, i as int, env_i) == (
                        Err::<Datum, Seq<char>>(g@),
                        env@,
                    ));
                }
                return Err(g);
            },
        };
        let (is_return, is_continue) = match &v {
            Expression::Symbol(s) => (same_text(s, "return"), same_text(s, "continue")),
            _ => (false, false),
        };
        if is_return {
            return Ok(Expression::Bool(true));
        }
        if is_continue {
            i = 0;
        } else if i + 1 >= args.len() {
            i = 0;
        } else {
            i = i + 1;
        }
        f = f - 1;
    }
}

/// `(or a b)` and `(and a b)`: short-circuit combinators of forms that must give
/// booleans; the second form is evaluated only when the first does not decide.
fn bool_form(name: &String, args: &[Expression], env: &mut Environment, fuel: u64) -> (r: Result<
    Expression,
    GError,
>)
    ensures
        (result_view(r), final(env)@) == bool_spec(fuel as nat, name@, views(args@), old(env)@),
        keeps_outer(old(env)@, final(env)@),
    decreases fuel, 1int, 0int,
{
    if args.len() != 2 {
        let mut s = name.clone();
        s.append(": wrong number of forms");
        return Err(GError::Reason(s));
    }
    let is_and = same_text(name, "and");
    let x = match eval_bounded(&args[0], env, fuel) {
        Ok(Expression::Bool(x)) => x,
        Ok(_) => {
            let mut s = name.clone();
            s.append(": expected a boolean");
            return Err(GError::Reason(s));
        },
        Err(g) => {
            return Err(g);
        },
    };
    if x != is_and {
        return Ok(Expression::Bool(x));
    }
    let y = match eval_bounded(&args[1], env, fuel) {
        Ok(Expression::Bool(y)) => y,
        Ok(_) => {
            let mut s = name.clone();
            s.append(": expected a boolean");
            return Err(GError::Reason(s));
        },
        Err(g) => {
            return Err(g);
        },
    };
    Ok(Expression::Bool(y))
}

/// `(or a b)`: true if the first form gives true, without evaluating the second;
/// otherwise the value of the second. Both must give booleans.
pub fn func_or(args: &[Expression], env: &mut Environment, fuel: u64) -> (r: Result<
    Expression,
    GError,
>)
    ensures
        (result_view(r), final(env)@) == bool_spec(fuel as nat, "or"@, views(args@), old(env)@),
        keeps_outer(old(env)@, final(env)@),
    decreases fuel, 2int, 0int,
{
    let name = String::from_str("or");
    bool_form(&name, args, env, fuel)
}

/// `(and a b)`: evaluates the first form, and the second only when the first gives
/// true; both must give booleans.
pub fn func_and(args: &[Expression], env: &mut Environment, fuel: u64) -> (r: Result<
    Expression,
    GError,
>)
    ensures
        (result_view(r), final(env)@) == bool_spec(fuel as nat, "and"@, views(args@), old(env)@),
        keeps_outer(old(env)@, final(env)@),
    decreases fuel, 2int, 0int,
{
    let name = String::from_str("and");
    bool_form(&name, args, env, fuel)
}

} // verus!

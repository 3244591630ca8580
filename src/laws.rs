use vstd::prelude::*;
use crate::builtins::{apply_spec, fits, numbers_of, sum};
use crate::env::{
    env_define, env_lookup, frame_find, frame_get, frame_set, primitive_frame, Frame,
};
use crate::eval::parse_eval_spec;
use crate::expr::{Datum, Primitive};
use crate::reader::{
    all_digits, atom_of, digits_value, int_value, is_digit, is_space, lex_state, parse_at,
    read_seq_at, strip_state, tokens_of,
};
use crate::render::{int_text, nat_text, render};
use crate::semantics::{
    atom_spec, bind_all, bool_spec, call_spec, car_spec, cdr_spec, cond_from, cond_spec, cons_spec,
    def_spec, do_spec, eq_spec, eval_from, eval_spec, form_spec, if_spec, is_special_form,
    keeps_outer, lambda_spec, loop_from, loop_spec, quote_spec, quote_symbol, quoted_items,
    symbol_names,
};

verus! {

/// An `if` whose test is false gives the value of its third form, and its second form
/// is never evaluated, whatever it is.
pub proof fn law_if_false_skips_then(fuel: nat, then_form: Datum, else_form: Datum, env: Seq<Frame>)
    requires
        fuel >= 2,
    ensures
        eval_spec(
            fuel,
            Datum::List(seq![Datum::Symbol("if"@), Datum::Bool(false), then_form, else_form]),
            env,
        ) == eval_spec((fuel - 1) as nat, else_form, env),
{
    let items = seq![Datum::Symbol("if"@), Datum::Bool(false), then_form, else_form];
    let args = seq![Datum::Bool(false), then_form, else_form];
    let f1 = (fuel - 1) as nat;
    assert(items.drop_first() =~= args);
    assert(is_special_form("if"@));
    assert(eval_spec(fuel, Datum::List(items), env) == form_spec(f1, "if"@, args, env));
    assert(form_spec(f1, "if"@, args, env) == if_spec(f1, args, env));
    assert(eval_spec(f1, Datum::Bool(false), env) == (Ok::<Datum, Seq<char>>(Datum::Bool(false)), env));
}

/// A symbol that no frame binds fails to evaluate, with a reason that names it.
pub proof fn law_unbound_symbol(fuel: nat, k: Seq<char>, env: Seq<Frame>)
    requires
        fuel >= 1,
        env_lookup(env, k) is None,
    ensures
        eval_spec(fuel, Datum::Symbol(k), env) == (
            Err::<Datum, Seq<char>>("unexpected symbol k="@ + k),
            env,
        ),
{
}

/// The car of `(quote a ...)` is its first quoted element `a`, unless `a` is a list
/// quoted alone (see `law_car_of_quoted_list`).
pub proof fn law_car_of_quote(fuel: nat, first: Datum, rest: Seq<Datum>, env: Seq<Frame>)
    requires
        fuel >= 1,
        rest.len() >= 1 || !(first is List),
    ensures
        eval_spec(
            fuel,
            Datum::List(
                seq![Datum::Symbol("car"@), Datum::List(seq![quote_symbol(), first] + rest)],
            ),
            env,
        ) == (Ok::<Datum, Seq<char>>(first), env),
{
    lemma_form_names_differ();
    let quoted = seq![quote_symbol(), first] + rest;
    let items = seq![Datum::Symbol("car"@), Datum::List(quoted)];
    let args = seq![Datum::List(quoted)];
    let f1 = (fuel - 1) as nat;
    assert(items.drop_first() =~= args);
    assert(quoted[0] == quote_symbol() && quoted[1] == first);
    assert(is_special_form("car"@));
    assert(eval_spec(fuel, Datum::List(items), env) == form_spec(f1, "car"@, args, env));
    assert(form_spec(f1, "car"@, args, env) == (car_spec(args), env));
}

/// The cdr of a quoted list of at least three elements is the quoted list of all but
/// its first element.
pub proof fn law_cdr_of_quote(
    fuel: nat,
    first: Datum,
    second: Datum,
    rest: Seq<Datum>,
    env: Seq<Frame>,
)
    requires
        fuel >= 1,
        rest.len() >= 1,
    ensures
        eval_spec(
            fuel,
            Datum::List(
                seq![Datum::Symbol("cdr"@), Datum::List(seq![quote_symbol(), first, second] + rest)],
            ),
            env,
        ) == (Ok::<Datum, Seq<char>>(Datum::List(seq![quote_symbol(), second] + rest)), env),
{
    lemma_form_names_differ();
    let quoted = seq![quote_symbol(), first, second] + rest;
    let items = seq![Datum::Symbol("cdr"@), Datum::List(quoted)];
    let args = seq![Datum::List(quoted)];
    let f1 = (fuel - 1) as nat;
    assert(items.drop_first() =~= args);
    assert(quoted[0] == quote_symbol());
    assert(seq![quote_symbol()] + quoted.subrange(2, quoted.len() as int) =~= seq![
        quote_symbol(),
        second,
    ] + rest);
    assert(is_special_form("cdr"@));
    assert(eval_spec(fuel, Datum::List(items), env) == form_spec(f1, "cdr"@, args, env));
    assert(form_spec(f1, "cdr"@, args, env) == (cdr_spec(args), env));
}

/// The car of `(quote (a ...))` is `a`, the first element of the quoted list.
pub proof fn law_car_of_quoted_list(fuel: nat, first: Datum, rest: Seq<Datum>, env: Seq<Frame>)
    requires
        fuel >= 1,
    ensures
        eval_spec(
            fuel,
            Datum::List(
                seq![
                    Datum::Symbol("car"@),
                    Datum::List(seq![quote_symbol(), Datum::List(seq![first] + rest)]),
                ],
            ),
            env,
        ) == (Ok::<Datum, Seq<char>>(first), env),
{
    lemma_form_names_differ();
    let quoted = seq![quote_symbol(), Datum::List(seq![first] + rest)];
    let items = seq![Datum::Symbol("car"@), Datum::List(quoted)];
    let args = seq![Datum::List(quoted)];
    let f1 = (fuel - 1) as nat;
    assert(items.drop_first() =~= args);
    assert(quoted_items(quoted) == seq![first] + rest);
    assert(is_special_form("car"@));
    assert(eval_spec(fuel, Datum::List(items), env) == form_spec(f1, "car"@, args, env));
    assert(form_spec(f1, "car"@, args, env) == (car_spec(args), env));
}

/// The cdr of `(quote (a b ...))` is the quoted list `(quote b ...)`.
pub proof fn law_cdr_of_quoted_list(fuel: nat, first: Datum, rest: Seq<Datum>, env: Seq<Frame>)
    requires
        fuel >= 1,
    ensures
        eval_spec(
            fuel,
            Datum::List(
                seq![
                    Datum::Symbol("cdr"@),
                    Datum::List(seq![quote_symbol(), Datum::List(seq![first] + rest)]),
                ],
            ),
            env,
        ) == (Ok::<Datum, Seq<char>>(Datum::List(seq![quote_symbol()] + rest)), env),
{
    lemma_form_names_differ();
    let inner = seq![first] + rest;
    let quoted = seq![quote_symbol(), Datum::List(inner)];
    let items = seq![Datum::Symbol("cdr"@), Datum::List(quoted)];
    let args = seq![Datum::List(quoted)];
    let f1 = (fuel - 1) as nat;
    assert(items.drop_first() =~= args);
    assert(inner.drop_first() =~= rest);
    assert(is_special_form("cdr"@));
    assert(eval_spec(fuel, Datum::List(items), env) == form_spec(f1, "cdr"@, args, env));
    assert(form_spec(f1, "cdr"@, args, env) == (cdr_spec(args), env));
}

/// `cons` of two quoted forms is the list of the quoted data of the first followed by
/// that of the second, not quoted again; a quoted form holds the elements of its one
/// quoted list, or else its quoted elements.
pub proof fn law_cons_of_quotes(fuel: nat, xs: Seq<Datum>, ys: Seq<Datum>, env: Seq<Frame>)
    requires
        fuel >= 1,
    ensures
        eval_spec(
            fuel,
            Datum::List(
                seq![
                    Datum::Symbol("cons"@),
                    Datum::List(seq![quote_symbol()] + xs),
                    Datum::List(seq![quote_symbol()] + ys),
                ],
            ),
            env,
        ) == (
            Ok::<Datum, Seq<char>>(
                Datum::List(
                    quoted_items(seq![quote_symbol()] + xs) + quoted_items(seq![quote_symbol()] + ys),
                ),
            ),
            env,
        ),
        (xs.len() == 1 && xs[0] is List) ==> quoted_items(seq![quote_symbol()] + xs)
            == xs[0]->List_0,
        !(xs.len() == 1 && xs[0] is List) ==> quoted_items(seq![quote_symbol()] + xs) == xs,
{
    lemma_form_names_differ();
    let a = seq![quote_symbol()] + xs;
    let b = seq![quote_symbol()] + ys;
    let items = seq![Datum::Symbol("cons"@), Datum::List(a), Datum::List(b)];
    let args = seq![Datum::List(a), Datum::List(b)];
    let f1 = (fuel - 1) as nat;
    assert(items.drop_first() =~= args);
    assert(a[0] == quote_symbol() && b[0] == quote_symbol());
    assert(a.drop_first() =~= xs);
    assert(b.drop_first() =~= ys);
    if a.len() == 2 {
        assert(a[1] == xs[0]);
    }
    assert(is_special_form("cons"@));
    assert(eval_spec(fuel, Datum::List(items), env) == form_spec(f1, "cons"@, args, env));
    assert(form_spec(f1, "cons"@, args, env) == (cons_spec(args), env));
}

/// `quote` gives its forms unevaluated, in a list that starts with `quote`.
pub proof fn law_quote(fuel: nat, forms: Seq<Datum>, env: Seq<Frame>)
    requires
        fuel >= 1,
        forms.len() >= 1,
    ensures
        eval_spec(fuel, Datum::List(seq![quote_symbol()] + forms), env) == (
            Ok::<Datum, Seq<char>>(Datum::List(seq![quote_symbol()] + forms)),
            env,
        ),
{
    lemma_form_names_differ();
    let items = seq![quote_symbol()] + forms;
    let f1 = (fuel - 1) as nat;
    assert(items.drop_first() =~= forms);
    assert(items[0] == quote_symbol());
    assert(is_special_form("quote"@));
    assert(eval_spec(fuel, Datum::List(items), env) == form_spec(f1, "quote"@, forms, env));
    assert(form_spec(f1, "quote"@, forms, env) == (quote_spec(forms), env));
}

proof fn lemma_find_after_set(f: Frame, k: Seq<char>, v: Datum)
    ensures
        frame_get(frame_set(f, k, v), k) == Some(v),
    decreases f.len(),
{
    match frame_find(f, k) {
        Some(i) => {
            lemma_find_update(f, k, v, i);
        },
        None => {
            assert(f.push((k, v)).drop_last() =~= f);
        },
    }
}

proof fn lemma_find_update(f: Frame, k: Seq<char>, v: Datum, i: int)
    requires
        frame_find(f, k) == Some(i),
    ensures
        frame_find(f.update(i, (k, v)), k) == Some(i),
        0 <= i < f.len(),
    decreases f.len(),
{
    let g = f.update(i, (k, v));
    if f.len() > 0 {
        match frame_find(f.drop_last(), k) {
            Some(j) => {
                lemma_find_update(f.drop_last(), k, v, i);
                assert(g.drop_last() =~= f.drop_last().update(i, (k, v)));
            },
            None => {
                assert(g.drop_last() =~= f.drop_last());
            },
        }
    }
}

/// After `(def x form)` succeeds, `x` evaluates to the value of the form in the frames
/// the definition left.
pub proof fn law_def_then_lookup(fuel: nat, later: nat, x: Seq<char>, form: Datum, env: Seq<Frame>)
    requires
        fuel >= 1,
        later >= 1,
        env.len() >= 1,
        eval_spec(
            fuel,
            Datum::List(seq![Datum::Symbol("def"@), Datum::Symbol(x), form]),
            env,
        ).0 is Ok,
    ensures
        ({
            let (r, env1) = eval_spec(
                fuel,
                Datum::List(seq![Datum::Symbol("def"@), Datum::Symbol(x), form]),
                env,
            );
            &&& r == Ok::<Datum, Seq<char>>(Datum::Symbol(x))
            &&& eval_spec(later, Datum::Symbol(x), env1) == (
                eval_spec((fuel - 1) as nat, form, env).0,
                env1,
            )
        }),
{
    lemma_form_names_differ();
    let items = seq![Datum::Symbol("def"@), Datum::Symbol(x), form];
    let args = seq![Datum::Symbol(x), form];
    let f1 = (fuel - 1) as nat;
    assert(items.drop_first() =~= args);
    assert(is_special_form("def"@));
    assert(eval_spec(fuel, Datum::List(items), env) == form_spec(f1, "def"@, args, env));
    assert(form_spec(f1, "def"@, args, env) == def_spec(f1, "def"@, args, env));
    let (v, envv) = eval_spec(f1, form, env);
    if let Ok(val) = v {
        law_eval_keeps_outer_frames(f1, form, env);
        lemma_find_after_set(envv[0], x, val);
        assert(env_define(envv, x, val)[0] == frame_set(envv[0], x, val));
    }
}

/// Evaluation changes at most the innermost frame: every frame around it, and the
/// number of frames, are as they were. In particular a lambda call's own frame is gone
/// once the call returns.
pub proof fn law_eval_keeps_outer_frames(fuel: nat, e: Datum, env: Seq<Frame>)
    requires
        env.len() >= 1,
    ensures
        keeps_outer(env, eval_spec(fuel, e, env).1),
    decreases fuel, 0int, 0int,
{
    if fuel > 0 {
        if let Datum::List(items) = e {
            if items.len() > 0 {
                let f1 = (fuel - 1) as nat;
                match items[0] {
                    Datum::Symbol(name) => if is_special_form(name) {
                        lemma_form_keeps(f1, name, items.drop_first(), env);
                    } else {
                        lemma_call_keeps(f1, items[0], items.drop_first(), env);
                    },
                    _ => lemma_call_keeps(f1, items[0], items.drop_first(), env),
                }
            }
        }
    }
}

proof fn lemma_from_keeps(fuel: nat, args: Seq<Datum>, i: int, env: Seq<Frame>)
    requires
        env.len() >= 1,
    ensures
        keeps_outer(env, eval_from(fuel, args, i, env).1),
    decreases fuel, 1int, args.len() - i,
{
    if 0 <= i < args.len() {
        law_eval_keeps_outer_frames(fuel, args[i], env);
        let (r, env1) = eval_spec(fuel, args[i], env);
        if r is Ok {
            lemma_from_keeps(fuel, args, i + 1, env1);
        }
    }
}

proof fn lemma_call_keeps(fuel: nat, head: Datum, args: Seq<Datum>, env: Seq<Frame>)
    requires
        env.len() >= 1,
    ensures
        keeps_outer(env, call_spec(fuel, head, args, env).1),
    decreases fuel, 3int, 0int,
{
    law_eval_keeps_outer_frames(fuel, head, env);
    let (h, env1) = eval_spec(fuel, head, env);
    match h {
        Ok(Datum::Func(p)) => {
            lemma_from_keeps(fuel, args, 0, env1);
        },
        Ok(Datum::Lambda(params, body)) => {
            lemma_lambda_keeps(fuel, *params, *body, args, env1);
        },
        _ => {},
    }
}

proof fn lemma_lambda_keeps(
    fuel: nat,
    params: Datum,
    body: Datum,
    args: Seq<Datum>,
    env: Seq<Frame>,
)
    requires
        env.len() >= 1,
    ensures
        keeps_outer(env, lambda_spec(fuel, params, body, args, env).1),
    decreases fuel, 2int, 0int,
{
    if let Datum::List(ps) = params {
        if let Some(names) = symbol_names(ps) {
            if names.len() == args.len() {
                lemma_from_keeps(fuel, args, 0, env);
                let (vs, env1) = eval_from(fuel, args, 0, env);
                if let Ok(vals) = vs {
                    let inner = seq![bind_all(names, vals)] + env1;
                    law_eval_keeps_outer_frames(fuel, body, inner);
                    assert(inner.drop_first() =~= env1);
                }
            }
        }
    }
}

proof fn lemma_form_keeps(fuel: nat, name: Seq<char>, args: Seq<Datum>, env: Seq<Frame>)
    requires
        env.len() >= 1,
    ensures
        keeps_outer(env, form_spec(fuel, name, args, env).1),
    decreases fuel, 3int, 0int,
{
    lemma_form_names_differ();
    if name == "if"@ {
        if args.len() >= 1 {
            law_eval_keeps_outer_frames(fuel, args[0], env);
            let (t, env1) = eval_spec(fuel, args[0], env);
            if let Ok(Datum::Bool(b)) = t {
                if args.len() == 3 {
                    law_eval_keeps_outer_frames(fuel, if b { args[1] } else { args[2] }, env1);
                }
            }
        }
        assert(keeps_outer(env, if_spec(fuel, args, env).1));
        assert(form_spec(fuel, name, args, env) == if_spec(fuel, args, env));
    } else if name == "def"@ || name == "set"@ {
        if args.len() == 2 {
            law_eval_keeps_outer_frames(fuel, args[1], env);
            let (v, env1) = eval_spec(fuel, args[1], env);
            if let Ok(val) = v {
                if let Datum::Symbol(k) = args[0] {
                    assert(env_define(env1, k, val).drop_first() =~= env1.drop_first());
                }
            }
        }
        assert(keeps_outer(env, def_spec(fuel, name, args, env).1));
        assert(form_spec(fuel, name, args, env) == def_spec(fuel, name, args, env));
    } else if name == "lambda"@ || name == "quote"@ || name == "car"@ || name == "cdr"@ || name
        == "cons"@ {
        assert(form_spec(fuel, name, args, env).1 == env);
    } else if name == "atom"@ {
        if args.len() == 1 {
            law_eval_keeps_outer_frames(fuel, args[0], env);
        }
        assert(form_spec(fuel, name, args, env) == atom_spec(fuel, args, env));
    } else if name == "eq"@ {
        if args.len() == 2 {
            law_eval_keeps_outer_frames(fuel, args[0], env);
            let (a, env1) = eval_spec(fuel, args[0], env);
            if a is Ok {
                law_eval_keeps_outer_frames(fuel, args[1], env1);
            }
        }
        assert(keeps_outer(env, eq_spec(fuel, args, env).1));
        assert(form_spec(fuel, name, args, env) == eq_spec(fuel, args, env));
    } else if name == "cond"@ {
        if args.len() >= 2 && args.len() % 2 == 0 {
            lemma_cond_keeps(fuel, args, 0, env);
        }
        assert(keeps_outer(env, cond_spec(fuel, args, env).1));
        assert(form_spec(fuel, name, args, env) == cond_spec(fuel, args, env));
    } else if name == "do"@ {
        if args.len() > 0 {
            lemma_from_keeps(fuel, args, 0, env);
        }
        assert(keeps_outer(env, do_spec(fuel, args, env).1));
        assert(form_spec(fuel, name, args, env) == do_spec(fuel, args, env));
    } else if name == "loop"@ {
        if args.len() >= 2 {
            lemma_loop_keeps(fuel, args, 0, env);
        }
        assert(keeps_outer(env, loop_spec(fuel, args, env).1));
        assert(form_spec(fuel, name, args, env) == loop_spec(fuel, args, env));
    } else {
        lemma_bool_keeps(fuel, name, args, env);
        assert(form_spec(fuel, name, args, env) == bool_spec(fuel, name, args, env));
    }
}

proof fn lemma_cond_keeps(fuel: nat, args: Seq<Datum>, i: int, env: Seq<Frame>)
    requires
        env.len() >= 1,
    ensures
        keeps_outer(env, cond_from(fuel, args, i, env).1),
    decreases fuel, 1int, args.len() - i,
{
    if 0 <= i && i + 1 < args.len() {
        law_eval_keeps_outer_frames(fuel, args[i], env);
        let (t, env1) = eval_spec(fuel, args[i], env);
        match t {
            Ok(Datum::Bool(true)) => {
                law_eval_keeps_outer_frames(fuel, args[i + 1], env1);
            },
            Ok(_) => {
                lemma_cond_keeps(fuel, args, i + 2, env1);
            },
            _ => {},
        }
    }
}

proof fn lemma_loop_keeps(fuel: nat, args: Seq<Datum>, i: int, env: Seq<Frame>)
    requires
        env.len() >= 1,
    ensures
        keeps_outer(env, loop_from(fuel, args, i, env).1),
    decreases fuel, 1int, 0int,
{
    if fuel > 0 && 0 <= i < args.len() {
        law_eval_keeps_outer_frames(fuel, args[i], env);
        let (r, env1) = eval_spec(fuel, args[i], env);
        if r is Ok {
            lemma_loop_keeps((fuel - 1) as nat, args, 0, env1);
            lemma_loop_keeps(
                (fuel - 1) as nat,
                args,
                if i + 1 >= args.len() { 0 } else { i + 1 },
                env1,
            );
        }
    }
}

proof fn lemma_bool_keeps(fuel: nat, name: Seq<char>, args: Seq<Datum>, env: Seq<Frame>)
    requires
        env.len() >= 1,
    ensures
        keeps_outer(env, bool_spec(fuel, name, args, env).1),
    decreases fuel, 2int, 0int,
{
    if args.len() == 2 {
        law_eval_keeps_outer_frames(fuel, args[0], env);
        let (a, env1) = eval_spec(fuel, args[0], env);
        if a is Ok {
            law_eval_keeps_outer_frames(fuel, args[1], env1);
        }
    }
}

/// A lambda form `(lambda params body)`.
pub open spec fn lambda_form(params: Datum, body: Datum) -> Datum {
    Datum::List(seq![Datum::Symbol("lambda"@), params, body])
}

/// The parameter list that names `names` in order.
pub open spec fn param_list(names: Seq<Seq<char>>) -> Datum {
    Datum::List(Seq::new(names.len(), |i: int| Datum::Symbol(names[i])))
}

proof fn lemma_param_names(names: Seq<Seq<char>>)
    ensures
        param_list(names) matches Datum::List(ps) && symbol_names(ps) == Some(names),
    decreases names.len(),
{
    if names.len() > 0 {
        lemma_param_names(names.drop_last());
        if let Datum::List(ps) = param_list(names) {
            if let Datum::List(qs) = param_list(names.drop_last()) {
                assert(ps.drop_last() =~= qs);
            }
        }
    } else {
        if let Datum::List(ps) = param_list(names) {
            assert(ps.len() == 0);
        }
    }
}

proof fn lemma_head_lambda(fuel: nat, params: Datum, body: Datum, env: Seq<Frame>)
    requires
        fuel >= 2,
    ensures
        eval_spec(fuel, lambda_form(params, body), env) == (
            Ok::<Datum, Seq<char>>(Datum::Lambda(Box::new(params), Box::new(body))),
            env,
        ),
{
    lemma_form_names_differ();
    let items = seq![Datum::Symbol("lambda"@), params, body];
    let f1 = (fuel - 1) as nat;
    assert(items.drop_first() =~= seq![params, body]);
    assert(is_special_form("lambda"@));
    assert(eval_spec(fuel, Datum::List(items), env) == form_spec(f1, "lambda"@, seq![params, body], env));
}

/// Inside a call, a parameter named `x` stands for its argument, whatever an outer
/// frame binds to `x`; once the call returns, the frames are as they were.
pub proof fn law_parameter_shadows(fuel: nat, x: Seq<char>, n: int, env: Seq<Frame>)
    requires
        fuel >= 3,
    ensures
        eval_spec(
            fuel,
            Datum::List(
                seq![
                    lambda_form(Datum::List(seq![Datum::Symbol(x)]), Datum::Symbol(x)),
                    Datum::Number(n),
                ],
            ),
            env,
        ) == (Ok::<Datum, Seq<char>>(Datum::Number(n)), env),
{
    let params = Datum::List(seq![Datum::Symbol(x)]);
    let head = lambda_form(params, Datum::Symbol(x));
    let items = seq![head, Datum::Number(n)];
    let args = seq![Datum::Number(n)];
    let f1 = (fuel - 1) as nat;
    assert(items.drop_first() =~= args);
    assert(eval_spec(fuel, Datum::List(items), env) == call_spec(f1, head, args, env));
    lemma_head_lambda(f1, params, Datum::Symbol(x), env);
    assert(symbol_names(seq![Datum::Symbol(x)]) == Some(seq![x])) by {
        reveal_with_fuel(symbol_names, 2);
        assert(seq![Datum::Symbol(x)].drop_last() =~= Seq::<Datum>::empty());
        assert(Seq::<Seq<char>>::empty().push(x) =~= seq![x]);
    }
    assert(eval_from(f1, args, 1, env) == (Ok::<Seq<Datum>, Seq<char>>(Seq::empty()), env));
    assert(eval_spec(f1, Datum::Number(n), env) == (Ok::<Datum, Seq<char>>(Datum::Number(n)), env));
    assert(args[0] == Datum::Number(n));
    assert(eval_from(f1, args, 0, env) == (Ok::<Seq<Datum>, Seq<char>>(seq![Datum::Number(n)]), env)) by {
        assert(seq![Datum::Number(n)] + Seq::<Datum>::empty() =~= seq![Datum::Number(n)]);
    }
    let frame = bind_all(seq![x], seq![Datum::Number(n)]);
    assert(frame == seq![(x, Datum::Number(n))]) by {
        reveal_with_fuel(bind_all, 2);
        assert(seq![x].drop_last() =~= Seq::<Seq<char>>::empty());
        assert(Seq::<(Seq<char>, Datum)>::empty().push((x, Datum::Number(n))) =~= seq![(x, Datum::Number(n))]);
        assert(seq![(x, Datum::Number(n))].drop_last() =~= Seq::<(Seq<char>, Datum)>::empty());
    }
    assert(frame_find(frame, x) == Some(0int)) by {
        reveal_with_fuel(frame_find, 2);
        assert(frame.drop_last() =~= Seq::<(Seq<char>, Datum)>::empty());
    }
    let inner = seq![frame] + env;
    assert(inner[0] == frame);
    assert(frame_get(inner[0], x) == Some(Datum::Number(n)));
    assert(env_lookup(inner, x) == Some(Datum::Number(n)));
    assert(eval_spec(f1, Datum::Symbol(x), inner) == (Ok::<Datum, Seq<char>>(Datum::Number(n)), inner));
    assert(inner.drop_first() =~= env);
    assert(lambda_spec(f1, params, Datum::Symbol(x), args, env) == (Ok::<Datum, Seq<char>>(Datum::Number(n)), env));
}

/// Calling a lambda with a number of arguments other than its number of parameters
/// fails before any argument is evaluated, with a reason that gives both numbers.
pub proof fn law_arity_mismatch(
    fuel: nat,
    names: Seq<Seq<char>>,
    body: Datum,
    args: Seq<Datum>,
    env: Seq<Frame>,
)
    requires
        fuel >= 3,
        names.len() != args.len(),
    ensures
        eval_spec(fuel, Datum::List(seq![lambda_form(param_list(names), body)] + args), env) == (
            Err::<Datum, Seq<char>>(
                "expected "@ + int_text(names.len() as int) + " params, got "@ + int_text(
                    args.len() as int,
                ),
            ),
            env,
        ),
{
    let head = lambda_form(param_list(names), body);
    let items = seq![head] + args;
    let f1 = (fuel - 1) as nat;
    assert(items.drop_first() =~= args);
    assert(items[0] == head);
    assert(eval_spec(fuel, Datum::List(items), env) == call_spec(f1, head, args, env));
    lemma_head_lambda(f1, param_list(names), body, env);
    lemma_param_names(names);
}

/// `+` fails on any argument that is not a number, with a reason that asks for one.
pub proof fn law_add_needs_numbers(args: Seq<Datum>, i: int)
    requires
        0 <= i < args.len(),
        !(args[i] is Number),
    ensures
        apply_spec(Primitive::Add, args) == Err::<Datum, Seq<char>>("expect a number"@),
{
    lemma_numbers_none(args, i);
}

proof fn lemma_numbers_none(args: Seq<Datum>, i: int)
    requires
        0 <= i < args.len(),
        !(args[i] is Number),
    ensures
        numbers_of(args) is None,
    decreases args.len(),
{
    if i < args.len() - 1 {
        assert(args.drop_last()[i] == args[i]);
        lemma_numbers_none(args.drop_last(), i);
    }
}

/// How a token changes the count of open lists: up by one for `(`, down for `)`.
pub open spec fn depth_step(t: Seq<char>) -> int {
    if t == "("@ {
        1
    } else if t == ")"@ {
        -1
    } else {
        0
    }
}

/// The number of `(` tokens minus the number of `)` tokens among the first `n`.
pub open spec fn depth(toks: Seq<Seq<char>>, n: int) -> int
    decreases n,
{
    if n <= 0 || n > toks.len() {
        0
    } else {
        depth(toks, n - 1) + depth_step(toks[n - 1])
    }
}

proof fn lemma_parse_depth(toks: Seq<Seq<char>>, pos: int)
    requires
        0 <= pos < toks.len(),
        toks[pos] != ")"@,
    ensures
        match parse_at(toks, pos) {
            Ok((_, next)) => pos < next <= toks.len() && depth(toks, next) == depth(toks, pos),
            Err(m) => m == "could not find closing `)`"@,
        },
    decreases toks.len() - pos, 0int,
{
    if toks[pos] == "("@ {
        lemma_seq_depth(toks, pos + 1, Seq::empty());
        assert(depth(toks, pos + 1) == depth(toks, pos) + 1);
    } else {
        assert(depth(toks, pos + 1) == depth(toks, pos));
    }
}

proof fn lemma_seq_depth(toks: Seq<Seq<char>>, pos: int, acc: Seq<Datum>)
    requires
        0 <= pos <= toks.len(),
    ensures
        match read_seq_at(toks, pos, acc) {
            Ok((_, next)) => pos < next <= toks.len() && depth(toks, next) == depth(toks, pos) - 1,
            Err(m) => m == "could not find closing `)`"@,
        },
    decreases toks.len() - pos, 1int,
{
    if pos < toks.len() {
        if toks[pos] == ")"@ {
            reveal_strlit("(");
            reveal_strlit(")");
            assert(toks[pos] != "("@) by {
                assert(toks[pos][0] == ')');
            }
            assert(depth(toks, pos + 1) == depth(toks, pos) - 1);
        } else {
            lemma_parse_depth(toks, pos);
            if let Ok((e, next)) = parse_at(toks, pos) {
                lemma_seq_depth(toks, next, acc.push(e));
            }
        }
    }
}

/// A text whose first token is `(`, and in which every run of tokens from the first
/// has more `(` than `)`, fails to read with "could not find closing `)`"; nothing is
/// evaluated and the frames are left as they were.
pub proof fn law_unclosed_list_fails_to_read(text: Seq<char>, env: Seq<Frame>)
    requires
        tokens_of(text).len() >= 1,
        tokens_of(text)[0] == "("@,
        forall|n: int| 1 <= n <= tokens_of(text).len() ==> depth(tokens_of(text), n) > 0,
    ensures
        parse_eval_spec(text, env) == (
            Err::<Datum, Seq<char>>("could not find closing `)`"@),
            env,
        ),
{
    let toks = tokens_of(text);
    lemma_seq_depth(toks, 1, Seq::empty());
    assert(depth(toks, 1) == 1) by {
        assert(depth(toks, 0) == 0);
    }
    if let Ok((_, next)) = read_seq_at(toks, 1, Seq::empty()) {
        assert(depth(toks, next) > 0);
    }
}

/// `+` on numbers gives their sum, a left fold from zero (so zero for no arguments),
/// whenever the sum fits in 64 signed bits; `default_env` binds `+` to it.
pub proof fn law_add_sums(ns: Seq<int>)
    requires
        fits(sum(ns)),
    ensures
        apply_spec(Primitive::Add, ns.map_values(|n: int| Datum::Number(n))) == Ok::<
            Datum,
            Seq<char>,
        >(Datum::Number(sum(ns))),
        apply_spec(Primitive::Add, Seq::empty()) == Ok::<Datum, Seq<char>>(Datum::Number(0)),
        env_lookup(seq![primitive_frame()], "+"@) == Some(Datum::Func(Primitive::Add)),
{
    lemma_numbers_of_numbers(ns);
    assert(numbers_of(Seq::<Datum>::empty()) == Some(Seq::<int>::empty()));
    reveal_strlit("+");
    reveal_strlit("-");
    reveal_strlit("=");
    reveal_strlit(">");
    reveal_strlit("<");
    reveal_strlit("<=");
    reveal_strlit(">=");
    reveal_with_fuel(frame_find, 8);
    let f = primitive_frame();
    assert(f.drop_last().drop_last().drop_last().drop_last().drop_last().drop_last() =~= seq![
        f[0],
    ]);
    assert(seq![f[0]].drop_last() =~= Seq::<(Seq<char>, Datum)>::empty());
    assert(frame_find(f, "+"@) == Some(0int));
}

proof fn lemma_numbers_of_numbers(ns: Seq<int>)
    ensures
        numbers_of(ns.map_values(|n: int| Datum::Number(n))) == Some(ns),
    decreases ns.len(),
{
    if ns.len() > 0 {
        lemma_numbers_of_numbers(ns.drop_last());
        assert(ns.map_values(|n: int| Datum::Number(n)).drop_last() =~= ns.drop_last().map_values(
            |n: int| Datum::Number(n),
        ));
        assert(ns.drop_last().push(ns.last()) =~= ns);
    } else {
        assert(ns.map_values(|n: int| Datum::Number(n)) =~= Seq::<Datum>::empty());
        assert(ns =~= Seq::<int>::empty());
    }
}

/// Whether `w` is a single word: not empty, and free of white space, parentheses and
/// `;`.
pub open spec fn is_word(w: Seq<char>) -> bool {
    &&& w.len() >= 1
    &&& forall|i: int|
        0 <= i < w.len() ==> !is_space(#[trigger] w[i]) && w[i] != '(' && w[i] != ')' && w[i]
            != ';'
}

/// The canonical text of a word: an integer in its shortest decimal form, any other
/// word as it is.
pub open spec fn canonical_word(w: Seq<char>) -> Seq<char> {
    match atom_of(w) {
        Datum::Number(v) => int_text(v),
        _ => w,
    }
}

proof fn lemma_word_prefix(w: Seq<char>, i: int)
    requires
        is_word(w),
        0 <= i <= w.len(),
    ensures
        strip_state(w.take(i)) == (w.take(i), false),
        lex_state(w.take(i)) == (Seq::<Seq<char>>::empty(), w.take(i)),
    decreases i,
{
    if i > 0 {
        lemma_word_prefix(w, i - 1);
        assert(w.take(i).drop_last() =~= w.take(i - 1));
        assert(w.take(i - 1).push(w[i - 1]) =~= w.take(i));
        assert(w.take(i).last() == w[i - 1]);
    } else {
        assert(w.take(0) =~= Seq::<char>::empty());
    }
}

/// A single word reads as one atom, and renders back as its canonical text: the word
/// itself, or for an integer its shortest decimal form.
pub proof fn law_word_round_trip(w: Seq<char>)
    requires
        is_word(w),
    ensures
        tokens_of(w) == seq![w],
        parse_at(tokens_of(w), 0) == Ok::<(Datum, int), Seq<char>>((atom_of(w), 1)),
        render(atom_of(w)) == canonical_word(w),
{
    lemma_word_prefix(w, w.len() as int);
    assert(w.take(w.len() as int) =~= w);
    assert(Seq::<Seq<char>>::empty().push(w) =~= seq![w]);
    reveal_strlit("(");
    reveal_strlit(")");
    reveal_strlit("\"");
    assert(w != "("@) by {
        if w == "("@ {
            assert(w[0] == '(');
        }
    }
    assert(w != ")"@) by {
        if w == ")"@ {
            assert(w[0] == ')');
        }
    }
    if w.len() >= 2 && w[0] == '"' && w.last() == '"' {
        assert("\""@ + w.subrange(1, w.len() - 1) + "\""@ =~= w);
    }
}

proof fn lemma_nat_text_digits(n: nat)
    ensures
        all_digits(nat_text(n)),
        digits_value(nat_text(n)) == n,
    decreases n,
{
    let t = nat_text(n);
    if n >= 10 {
        lemma_nat_text_digits(n / 10);
        assert(t.drop_last() == nat_text(n / 10));
        assert(forall|i: int| 0 <= i < t.len() - 1 ==> t[i] == nat_text(n / 10)[i]);
        assert(is_digit(t.last()));
        assert(t.last() as int - '0' as int == n % 10);
        assert((n / 10) * 10 + n % 10 == n) by (nonlinear_arith);
        assert(digits_value(t) == digits_value(t.drop_last()) * 10 + (t.last() as int - '0' as int));
    } else {
        assert(t.drop_last() =~= Seq::<char>::empty());
        assert(t.last() as int - '0' as int == n);
        assert(digits_value(t) == digits_value(t.drop_last()) * 10 + (t.last() as int - '0' as int));
        assert(digits_value(t.drop_last()) == 0);
    }
}

/// Rendering is idempotent on words: the canonical text of a word reads back as the
/// same value and renders as itself.
pub proof fn law_canonical_is_stable(w: Seq<char>)
    requires
        is_word(w),
    ensures
        is_word(canonical_word(w)),
        atom_of(canonical_word(w)) == atom_of(w),
        canonical_word(canonical_word(w)) == canonical_word(w),
{
    reveal_strlit("true");
    reveal_strlit("false");
    if let Datum::Number(v) = atom_of(w) {
        let c = int_text(v);
        if v < 0 {
            let m = (-v) as nat;
            lemma_nat_text_digits(m);
            assert(c.subrange(1, c.len() as int) =~= nat_text(m));
            assert(c[0] == '-');
        } else {
            lemma_nat_text_digits(v as nat);
            assert(is_digit(c[0]));
        }
        assert(forall|i: int| 0 <= i < c.len() ==> is_digit(#[trigger] c[i]) || c[i] == '-') by {
            if v < 0 {
                assert(forall|i: int| 1 <= i < c.len() ==> c[i] == nat_text((-v) as nat)[i - 1]);
            }
        }
        assert(c != "true"@) by {
            if c == "true"@ {
                assert(c[0] == 't');
            }
        }
        assert(c != "false"@) by {
            if c == "false"@ {
                assert(c[0] == 'f');
            }
        }
        assert(int_value(c) == Some(v));
    }
}

/// The names of the special forms differ from one another.
proof fn lemma_form_names_differ()
    ensures
        "def"@ != "if"@,
        "set"@ != "if"@,
        "set"@ != "def"@,
        "lambda"@ != "if"@,
        "lambda"@ != "def"@,
        "lambda"@ != "set"@,
        "quote"@ != "if"@,
        "quote"@ != "def"@,
        "quote"@ != "set"@,
        "quote"@ != "lambda"@,
        "atom"@ != "if"@,
        "atom"@ != "def"@,
        "atom"@ != "set"@,
        "atom"@ != "lambda"@,
        "atom"@ != "quote"@,
        "eq"@ != "if"@,
        "eq"@ != "def"@,
        "eq"@ != "set"@,
        "eq"@ != "lambda"@,
        "eq"@ != "quote"@,
        "eq"@ != "atom"@,
        "car"@ != "if"@,
        "car"@ != "def"@,
        "car"@ != "set"@,
        "car"@ != "lambda"@,
        "car"@ != "quote"@,
        "car"@ != "atom"@,
        "car"@ != "eq"@,
        "cdr"@ != "if"@,
        "cdr"@ != "def"@,
        "cdr"@ != "set"@,
        "cdr"@ != "lambda"@,
        "cdr"@ != "quote"@,
        "cdr"@ != "atom"@,
        "cdr"@ != "eq"@,
        "cdr"@ != "car"@,
        "cons"@ != "if"@,
        "cons"@ != "def"@,
        "cons"@ != "set"@,
        "cons"@ != "lambda"@,
        "cons"@ != "quote"@,
        "cons"@ != "atom"@,
        "cons"@ != "eq"@,
        "cons"@ != "car"@,
        "cons"@ != "cdr"@,
        "cond"@ != "if"@,
        "cond"@ != "def"@,
        "cond"@ != "set"@,
        "cond"@ != "lambda"@,
        "cond"@ != "quote"@,
        "cond"@ != "atom"@,
        "cond"@ != "eq"@,
        "cond"@ != "car"@,
        "cond"@ != "cdr"@,
        "cond"@ != "cons"@,
        "do"@ != "if"@,
        "do"@ != "def"@,
        "do"@ != "set"@,
        "do"@ != "lambda"@,
        "do"@ != "quote"@,
        "do"@ != "atom"@,
        "do"@ != "eq"@,
        "do"@ != "car"@,
        "do"@ != "cdr"@,
        "do"@ != "cons"@,
        "do"@ != "cond"@,
        "loop"@ != "if"@,
        "loop"@ != "def"@,
        "loop"@ != "set"@,
        "loop"@ != "lambda"@,
        "loop"@ != "quote"@,
        "loop"@ != "atom"@,
        "loop"@ != "eq"@,
        "loop"@ != "car"@,
        "loop"@ != "cdr"@,
        "loop"@ != "cons"@,
        "loop"@ != "cond"@,
        "loop"@ != "do"@,
        "or"@ != "if"@,
        "or"@ != "def"@,
        "or"@ != "set"@,
        "or"@ != "lambda"@,
        "or"@ != "quote"@,
        "or"@ != "atom"@,
        "or"@ != "eq"@,
        "or"@ != "car"@,
        "or"@ != "cdr"@,
        "or"@ != "cons"@,
        "or"@ != "cond"@,
        "or"@ != "do"@,
        "or"@ != "loop"@,
        "and"@ != "if"@,
        "and"@ != "def"@,
        "and"@ != "set"@,
        "and"@ != "lambda"@,
        "and"@ != "quote"@,
        "and"@ != "atom"@,
        "and"@ != "eq"@,
        "and"@ != "car"@,
        "and"@ != "cdr"@,
        "and"@ != "cons"@,
        "and"@ != "cond"@,
        "and"@ != "do"@,
        "and"@ != "loop"@,
        "and"@ != "or"@,
{
    reveal_strlit("if");
    reveal_strlit("def");
    reveal_strlit("set");
    reveal_strlit("lambda");
    reveal_strlit("quote");
    reveal_strlit("atom");
    reveal_strlit("eq");
    reveal_strlit("car");
    reveal_strlit("cdr");
    reveal_strlit("cons");
    reveal_strlit("cond");
    reveal_strlit("do");
    reveal_strlit("loop");
    reveal_strlit("or");
    reveal_strlit("and");
    assert("def"@.len() != "if"@.len());
    assert("set"@.len() != "if"@.len());
    assert("set"@[0] != "def"@[0]);
    assert("lambda"@.len() != "if"@.len());
    assert("lambda"@.len() != "def"@.len());
    assert("lambda"@.len() != "set"@.len());
    assert("quote"@.len() != "if"@.len());
    assert("quote"@.len() != "def"@.len());
    assert("quote"@.len() != "set"@.len());
    assert("quote"@.len() != "lambda"@.len());
    assert("atom"@.len() != "if"@.len());
    assert("atom"@.len() != "def"@.len());
    assert("atom"@.len() != "set"@.len());
    assert("atom"@.len() != "lambda"@.len());
    assert("atom"@.len() != "quote"@.len());
    assert("eq"@[0] != "if"@[0]);
    assert("eq"@.len() != "def"@.len());
    assert("eq"@.len() != "set"@.len());
    assert("eq"@.len() != "lambda"@.len());
    assert("eq"@.len() != "quote"@.len());
    assert("eq"@.len() != "atom"@.len());
    assert("car"@.len() != "if"@.len());
    assert("car"@[0] != "def"@[0]);
    assert("car"@[0] != "set"@[0]);
    assert("car"@.len() != "lambda"@.len());
    assert("car"@.len() != "quote"@.len());
    assert("car"@.len() != "atom"@.len());
    assert("car"@.len() != "eq"@.len());
    assert("cdr"@.len() != "if"@.len());
    assert("cdr"@[0] != "def"@[0]);
    assert("cdr"@[0] != "set"@[0]);
    assert("cdr"@.len() != "lambda"@.len());
    assert("cdr"@.len() != "quote"@.len());
    assert("cdr"@.len() != "atom"@.len());
    assert("cdr"@.len() != "eq"@.len());
    assert("cdr"@[1] != "car"@[1]);
    assert("cons"@.len() != "if"@.len());
    assert("cons"@.len() != "def"@.len());
    assert("cons"@.len() != "set"@.len());
    assert("cons"@.len() != "lambda"@.len());
    assert("cons"@.len() != "quote"@.len());
    assert("cons"@[0] != "atom"@[0]);
    assert("cons"@.len() != "eq"@.len());
    assert("cons"@.len() != "car"@.len());
    assert("cons"@.len() != "cdr"@.len());
    assert("cond"@.len() != "if"@.len());
    assert("cond"@.len() != "def"@.len());
    assert("cond"@.len() != "set"@.len());
    assert("cond"@.len() != "lambda"@.len());
    assert("cond"@.len() != "quote"@.len());
    assert("cond"@[0] != "atom"@[0]);
    assert("cond"@.len() != "eq"@.len());
    assert("cond"@.len() != "car"@.len());
    assert("cond"@.len() != "cdr"@.len());
    assert("cond"@[3] != "cons"@[3]);
    assert("do"@[0] != "if"@[0]);
    assert("do"@.len() != "def"@.len());
    assert("do"@.len() != "set"@.len());
    assert("do"@.len() != "lambda"@.len());
    assert("do"@.len() != "quote"@.len());
    assert("do"@.len() != "atom"@.len());
    assert("do"@[0] != "eq"@[0]);
    assert("do"@.len() != "car"@.len());
    assert("do"@.len() != "cdr"@.len());
    assert("do"@.len() != "cons"@.len());
    assert("do"@.len() != "cond"@.len());
    assert("loop"@.len() != "if"@.len());
    assert("loop"@.len() != "def"@.len());
    assert("loop"@.len() != "set"@.len());
    assert("loop"@.len() != "lambda"@.len());
    assert("loop"@.len() != "quote"@.len());
    assert("loop"@[0] != "atom"@[0]);
    assert("loop"@.len() != "eq"@.len());
    assert("loop"@.len() != "car"@.len());
    assert("loop"@.len() != "cdr"@.len());
    assert("loop"@[0] != "cons"@[0]);
    assert("loop"@[0] != "cond"@[0]);
    assert("loop"@.len() != "do"@.len());
    assert("or"@[0] != "if"@[0]);
    assert("or"@.len() != "def"@.len());
    assert("or"@.len() != "set"@.len());
    assert("or"@.len() != "lambda"@.len());
    assert("or"@.len() != "quote"@.len());
    assert("or"@.len() != "atom"@.len());
    assert("or"@[0] != "eq"@[0]);
    assert("or"@.len() != "car"@.len());
    assert("or"@.len() != "cdr"@.len());
    assert("or"@.len() != "cons"@.len());
    assert("or"@.len() != "cond"@.len());
    assert("or"@[0] != "do"@[0]);
    assert("or"@.len() != "loop"@.len());
    assert("and"@.len() != "if"@.len());
    assert("and"@[0] != "def"@[0]);
    assert("and"@[0] != "set"@[0]);
    assert("and"@.len() != "lambda"@.len());
    assert("and"@.len() != "quote"@.len());
    assert("and"@.len() != "atom"@.len());
    assert("and"@.len() != "eq"@.len());
    assert("and"@[0] != "car"@[0]);
    assert("and"@[0] != "cdr"@[0]);
    assert("and"@.len() != "cons"@.len());
    assert("and"@.len() != "cond"@.len());
    assert("and"@.len() != "do"@.len());
    assert("and"@.len() != "loop"@.len());
    assert("and"@.len() != "or"@.len());
}

} // verus!

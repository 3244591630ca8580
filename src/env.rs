use vstd::prelude::*;
use crate::expr::{Datum, Expression, Primitive};

verus! {

/// The model of one frame of bindings, in the order they were made.
pub type Frame = Seq<(Seq<char>, Datum)>;

/// A chain of frames of bindings: `data` is the innermost frame, `outer` the frames
/// around it.
pub struct Environment {
    pub data: Vec<(String, Expression)>,
    pub outer: Option<Box<Environment>>,
}

/// The model of the bindings held in `d`.
pub open spec fn frame_view(d: Seq<(String, Expression)>) -> Frame {
    Seq::new(d.len(), |i: int| (d[i].0@, d[i].1@))
}

impl Environment {
    /// The frames of the chain, innermost first.
    pub open spec fn view(&self) -> Seq<Frame>
        decreases self,
    {
        match self.outer {
            Some(o) => seq![frame_view(self.data@)] + o.view(),
            None => seq![frame_view(self.data@)],
        }
    }
}

/// Where the first binding of `k` stands in `f`, if any.
pub open spec fn frame_find(f: Frame, k: Seq<char>) -> Option<int>
    decreases f.len(),
{
    if f.len() == 0 {
        None
    } else {
        match frame_find(f.drop_last(), k) {
            Some(i) => Some(i),
            None => if f.last().0 == k {
                Some(f.len() - 1)
            } else {
                None
            },
        }
    }
}

/// The value that `f` binds to `k`, if any.
pub open spec fn frame_get(f: Frame, k: Seq<char>) -> Option<Datum> {
    match frame_find(f, k) {
        Some(i) => Some(f[i].1),
        None => None,
    }
}

/// `f` with `k` bound to `v`: the binding of `k` replaced, or a new one added.
pub open spec fn frame_set(f: Frame, k: Seq<char>, v: Datum) -> Frame {
    match frame_find(f, k) {
        Some(i) => f.update(i, (k, v)),
        None => f.push((k, v)),
    }
}

/// The value of `k` in the innermost frame that binds it.
pub open spec fn env_lookup(frames: Seq<Frame>, k: Seq<char>) -> Option<Datum>
    decreases frames.len(),
{
    if frames.len() == 0 {
        None
    } else {
        match frame_get(frames[0], k) {
            Some(v) => Some(v),
            None => env_lookup(frames.drop_first(), k),
        }
    }
}

/// The frames with `k` bound to `v` in the innermost one.
pub open spec fn env_define(frames: Seq<Frame>, k: Seq<char>, v: Datum) -> Seq<Frame> {
    frames.update(0, frame_set(frames[0], k, v))
}

/// The bindings of the primitives.
pub open spec fn primitive_frame() -> Frame {
    seq![
        ("+"@, Datum::Func(Primitive::Add)),
        ("-"@, Datum::Func(Primitive::Sub)),
        ("="@, Datum::Func(Primitive::NumEq)),
        (">"@, Datum::Func(Primitive::Gt)),
        ("<"@, Datum::Func(Primitive::Lt)),
        ("<="@, Datum::Func(Primitive::Le)),
        (">="@, Datum::Func(Primitive::Ge)),
    ]
}

/// Where the first binding of `k` stands in `data`, if any.
fn find_in(data: &Vec<(String, Expression)>, k: &String) -> (r: Option<usize>)
    ensures
        match r {
            Some(i) => frame_find(frame_view(data@), k@) == Some(i as int),
            None => frame_find(frame_view(data@), k@) is None,
        },
        r is Some ==> r->Some_0 < data@.len(),
{
    let ghost f = frame_view(data@);
    let mut found: Option<usize> = None;
    let mut i: usize = 0;
    while i < data.len()
        invariant
            i <= data.len(),
            f == frame_view(data@),
            match found {
                Some(j) => frame_find(f.take(i as int), k@) == Some(j as int),
                None => frame_find(f.take(i as int), k@) is None,
            },
            found is Some ==> found->Some_0 < i,
        decreases data.len() - i,
    {
        proof {
            assert(f.take(i + 1).drop_last() =~= f.take(i as int));
        }
        if found.is_none() && data[i].0.eq(k) {
            found = Some(i);
        }
        i = i + 1;
    }
    proof {
        assert(f.take(data.len() as int) =~= f);
    }
    found
}

/// Looks `key` up in the chain, innermost frame first; returns a copy of its value.
pub fn env_get(key: &String, env: &Environment) -> (r: Option<Expression>)
    ensures
        match r {
            Some(e) => env_lookup(env@, key@) == Some(e@),
            None => env_lookup(env@, key@) is None,
        },
    decreases env,
{
    match find_in(&env.data, key) {
        Some(i) => {
            let v = env.data[i].1.duplicate();
            proof {
                assert(env@[0] == frame_view(env.data@));
                assert(frame_view(env.data@)[i as int].1 == env.data@[i as int].1@);
                assert(frame_get(env@[0], key@) == Some(v@));
                assert(env_lookup(env@, key@) == Some(v@));
            }
            Some(v)
        },
        None => {
            proof {
                assert(env@[0] == frame_view(env.data@));
            }
            match &env.outer {
                Some(o) => {
                    proof {
                        assert(env@.drop_first() =~= o@);
                    }
                    let r = env_get(key, o);
                    assert(frame_get(env@[0], key@) is None);
                    assert(env_lookup(env@, key@) == env_lookup(env@.drop_first(), key@));
                    r
                },
                None => {
                    proof {
                        assert(env@.drop_first() =~= Seq::<Frame>::empty());
                    }
                    None
                },
            }
        },
    }
}

/// Binds `key` to `value` in the frame `data`, replacing a binding it has.
pub fn frame_insert(data: &mut Vec<(String, Expression)>, key: String, value: Expression)
    ensures
        frame_view(final(data)@) == frame_set(frame_view(old(data)@), key@, value@),
{
    let ghost k = key@;
    let ghost v = value@;
    let ghost f = frame_view(data@);
    match find_in(data, &key) {
        Some(i) => {
            data.set(i, (key, value));
            proof {
                assert(frame_view(data@) =~= f.update(i as int, (k, v)));
            }
        },
        None => {
            data.push((key, value));
            proof {
                assert(frame_view(data@) =~= f.push((k, v)));
            }
        },
    }
}

impl Environment {
    /// Binds `key` to `value` in the innermost frame, replacing a binding it has.
    pub fn define(&mut self, key: String, value: Expression)
        ensures
            final(self)@ == env_define(old(self)@, key@, value@),
    {
        let ghost k = key@;
        let ghost v = value@;
        frame_insert(&mut self.data, key, value);
        proof {
            assert(self@ =~= env_define(old(self)@, k, v));
        }
    }
}

fn binding(name: &str, p: Primitive) -> (r: (String, Expression))
    ensures
        r.0@ == name@,
        r.1@ == Datum::Func(p),
{
    (String::from_str(name), Expression::Func(p))
}

/// The root environment: one frame binding `+`, `-`, `=`, `>`, `<`, `<=` and `>=` to
/// their primitives.
pub fn default_env() -> (r: Environment)
    ensures
        r@ == seq![primitive_frame()],
{
    let mut data: Vec<(String, Expression)> = Vec::new();
    data.push(binding("+", Primitive::Add));
    data.push(binding("-", Primitive::Sub));
    data.push(binding("=", Primitive::NumEq));
    data.push(binding(">", Primitive::Gt));
    data.push(binding("<", Primitive::Lt));
    data.push(binding("<=", Primitive::Le));
    data.push(binding(">=", Primitive::Ge));
    let r = Environment { data, outer: None };
    proof {
        assert(frame_view(r.data@) =~= primitive_frame());
    }
    r
}

} // verus!

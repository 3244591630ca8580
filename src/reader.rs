use vstd::prelude::*;
use crate::expr::{reason, Datum, Expression, GError};
use crate::text::{chars_of, same_text, string_of, texts};

verus! {

/// Whether `c` is white space in Unicode's sense.
pub open spec fn is_space(c: char) -> bool {
    let u = c as u32;
    (0x9 <= u && u <= 0xd) || u == 0x20 || u == 0x85 || u == 0xa0 || u == 0x1680 || (0x2000
        <= u && u <= 0x200a) || u == 0x2028 || u == 0x2029 || u == 0x202f || u == 0x205f || u
        == 0x3000
}

/// The text left of `p` once comments are taken out, and whether `p` ends inside a
/// comment. A comment runs from `;` to the end of its line; the line break itself is
/// kept, so it still separates tokens.
pub open spec fn strip_state(p: Seq<char>) -> (Seq<char>, bool)
    decreases p.len(),
{
    if p.len() == 0 {
        (Seq::empty(), false)
    } else {
        let (out, in_comment) = strip_state(p.drop_last());
        let c = p.last();
        if c == '\n' {
            (out.push(c), false)
        } else if in_comment || c == ';' {
            (out, true)
        } else {
            (out.push(c), false)
        }
    }
}

/// `toks` with the word `w` added, if `w` is not empty.
pub open spec fn flush(toks: Seq<Seq<char>>, w: Seq<char>) -> Seq<Seq<char>> {
    if w.len() > 0 {
        toks.push(w)
    } else {
        toks
    }
}

/// The finished tokens of `p`, and the word still being read at its end. Parentheses
/// are tokens of their own; white space separates the other tokens.
pub open spec fn lex_state(p: Seq<char>) -> (Seq<Seq<char>>, Seq<char>)
    decreases p.len(),
{
    if p.len() == 0 {
        (Seq::empty(), Seq::empty())
    } else {
        let (toks, w) = lex_state(p.drop_last());
        let c = p.last();
        if is_space(c) {
            (flush(toks, w), Seq::empty())
        } else if c == '(' || c == ')' {
            (flush(toks, w).push(seq![c]), Seq::empty())
        } else {
            (toks, w.push(c))
        }
    }
}

/// The tokens of a source text.
pub open spec fn tokens_of(text: Seq<char>) -> Seq<Seq<char>> {
    let (toks, w) = lex_state(strip_state(text).0);
    flush(toks, w)
}

fn is_space_char(c: char) -> (r: bool)
    ensures
        r == is_space(c),
{
    let u = c as u32;
    (0x9 <= u && u <= 0xd) || u == 0x20 || u == 0x85 || u == 0xa0 || u == 0x1680 || (0x2000
        <= u && u <= 0x200a) || u == 0x2028 || u == 0x2029 || u == 0x202f || u == 0x205f || u
        == 0x3000
}

fn strip_comments(cs: &Vec<char>) -> (r: Vec<char>)
    ensures
        r@ == strip_state(cs@).0,
{
    let mut out: Vec<char> = Vec::new();
    let mut in_comment = false;
    let mut i: usize = 0;
    while i < cs.len()
        invariant
            i <= cs.len(),
            (out@, in_comment) == strip_state(cs@.take(i as int)),
        decreases cs.len() - i,
    {
        let c = cs[i];
        proof {
            assert(cs@.take(i + 1).drop_last() =~= cs@.take(i as int));
        }
        if c == '\n' {
            out.push(c);
            in_comment = false;
        } else if in_comment || c == ';' {
            in_comment = true;
        } else {
            out.push(c);
        }
        i = i + 1;
    }
    proof {
        assert(cs@.take(cs.len() as int) =~= cs@);
    }
    out
}

/// Splits a source text into tokens: comments from `;` to the end of a line are
/// dropped, every parenthesis is a token, and white space, line breaks included,
/// separates the rest.
pub fn tokenize(expr: String) -> (r: Vec<String>)
    ensures
        texts(r@) == tokens_of(expr@),
{
    let cs = chars_of(expr.as_str());
    let stripped = strip_comments(&cs);
    let mut toks: Vec<String> = Vec::new();
    let mut word: Vec<char> = Vec::new();
    let mut i: usize = 0;
    while i < stripped.len()
        invariant
            i <= stripped.len(),
            (texts(toks@), word@) == lex_state(stripped@.take(i as int)),
        decreases stripped.len() - i,
    {
        let c = stripped[i];
        proof {
            assert(stripped@.take(i + 1).drop_last() =~= stripped@.take(i as int));
        }
        let ghost before = texts(toks@);
        if is_space_char(c) || c == '(' || c == ')' {
            if word.len() > 0 {
                toks.push(string_of(&word));
                assert(texts(toks@) =~= before.push(word@));
            }
            assert(texts(toks@) == flush(before, word@));
            word = Vec::new();
            if !is_space_char(c) {
                let ghost mid = texts(toks@);
                let mut one: Vec<char> = Vec::new();
                one.push(c);
                toks.push(string_of(&one));
                assert(texts(toks@) =~= mid.push(seq![c]));
            }
        } else {
            word.push(c);
        }
        i = i + 1;
    }
    proof {
        assert(stripped@.take(stripped.len() as int) =~= stripped@);
    }
    let ghost before = texts(toks@);
    if word.len() > 0 {
        toks.push(string_of(&word));
        assert(texts(toks@) =~= before.push(word@));
    }
    toks
}

/// Whether `c` is a decimal digit.
pub open spec fn is_digit(c: char) -> bool {
    '0' <= c && c <= '9'
}

/// Whether `d` is a non-empty run of decimal digits.
pub open spec fn all_digits(d: Seq<char>) -> bool {
    d.len() >= 1 && forall|i: int| 0 <= i < d.len() ==> is_digit(#[trigger] d[i])
}

/// The value of a run of decimal digits.
pub open spec fn digits_value(d: Seq<char>) -> int
    decreases d.len(),
{
    if d.len() == 0 {
        0
    } else {
        digits_value(d.drop_last()) * 10 + (d.last() as int - '0' as int)
    }
}

/// The value of an integer token: an optional sign and decimal digits, when the value
/// fits in 64 signed bits.
pub open spec fn int_value(t: Seq<char>) -> Option<int> {
    let signed = t.len() >= 1 && (t[0] == '+' || t[0] == '-');
    let d = if signed {
        t.subrange(1, t.len() as int)
    } else {
        t
    };
    let v = if signed && t[0] == '-' {
        -digits_value(d)
    } else {
        digits_value(d)
    };
    if all_digits(d) && i64::MIN <= v && v <= i64::MAX {
        Some(v)
    } else {
        None
    }
}

/// What a single token reads as: a string between double quotes, a boolean, an
/// integer, or else a symbol.
pub open spec fn atom_of(t: Seq<char>) -> Datum {
    if t.len() >= 2 && t[0] == '"' && t.last() == '"' {
        Datum::Str(t.subrange(1, t.len() - 1))
    } else if t == "true"@ {
        Datum::Bool(true)
    } else if t == "false"@ {
        Datum::Bool(false)
    } else {
        match int_value(t) {
            Some(v) => Datum::Number(v),
            None => Datum::Symbol(t),
        }
    }
}

proof fn lemma_digits_value_nonneg(d: Seq<char>)
    requires
        forall|i: int| 0 <= i < d.len() ==> is_digit(#[trigger] d[i]),
    ensures
        digits_value(d) >= 0,
    decreases d.len(),
{
    if d.len() > 0 {
        lemma_digits_value_nonneg(d.drop_last());
    }
}

/// The value of the digits of `cs` from `start` on, if they are all digits, with
/// `2^63 + 1` standing for every larger value.
fn read_digits(cs: &Vec<char>, start: usize) -> (r: Option<u64>)
    requires
        start <= cs.len(),
    ensures
        match r {
            Some(v) => all_digits(cs@.subrange(start as int, cs.len() as int)) && (if digits_value(
                cs@.subrange(start as int, cs.len() as int),
            ) <= 0x8000_0000_0000_0000 {
                v == digits_value(cs@.subrange(start as int, cs.len() as int))
            } else {
                v == 0x8000_0000_0000_0001
            }),
            None => !all_digits(cs@.subrange(start as int, cs.len() as int)),
        },
{
    let ghost d = cs@.subrange(start as int, cs.len() as int);
    if start == cs.len() {
        return None;
    }
    let mut acc: u64 = 0;
    let mut i: usize = start;
    while i < cs.len()
        invariant
            start < cs.len(),
            start <= i <= cs.len(),
            d == cs@.subrange(start as int, cs.len() as int),
            forall|j: int| start <= j < i ==> is_digit(#[trigger] cs@[j]),
            digits_value(cs@.subrange(start as int, i as int)) <= 0x8000_0000_0000_0000 ==> acc
                == digits_value(cs@.subrange(start as int, i as int)),
            digits_value(cs@.subrange(start as int, i as int)) > 0x8000_0000_0000_0000 ==> acc
                == 0x8000_0000_0000_0001,
        decreases cs.len() - i,
    {
        let c = cs[i];
        if !('0' <= c && c <= '9') {
            proof {
                assert(d[i - start] == c);
            }
            return None;
        }
        let ghost prev = cs@.subrange(start as int, i as int);
        let ghost next = cs@.subrange(start as int, i + 1);
        proof {
            assert(next.drop_last() =~= prev);
            assert forall|j: int| 0 <= j < prev.len() implies is_digit(#[trigger] prev[j]) by {
                assert(prev[j] == cs@[start + j]);
            }
            lemma_digits_value_nonneg(prev);
        }
        let dig = (c as u32 - '0' as u32) as u64;
        if acc > 0x8000_0000_0000_0000 {
            acc = 0x8000_0000_0000_0001;
        } else {
            let wide: u128 = acc as u128 * 10 + dig as u128;
            if wide > 0x8000_0000_0000_0000 {
                acc = 0x8000_0000_0000_0001;
            } else {
                acc = wide as u64;
            }
        }
        i = i + 1;
    }
    proof {
        assert forall|j: int| 0 <= j < d.len() implies is_digit(#[trigger] d[j]) by {
            assert(d[j] == cs@[start + j]);
        }
    }
    Some(acc)
}

/// Reads one token as an atom: a string between double quotes (kept without them, no
/// escapes), `true` or `false`, an integer that fits in 64 signed bits, or else a
/// symbol.
pub fn parse_atom(token: &str) -> (r: Expression)
    ensures
        r@ == atom_of(token@),
{
    let cs = chars_of(token);
    let n = cs.len();
    if n >= 2 && cs[0] == '"' && cs[n - 1] == '"' {
        let inner = token.substring_char(1, n - 1);
        return Expression::String(String::from_str(inner));
    }
    let t = String::from_str(token);
    if same_text(&t, "true") {
        return Expression::Bool(true);
    }
    if same_text(&t, "false") {
        return Expression::Bool(false);
    }
    let signed = n >= 1 && (cs[0] == '+' || cs[0] == '-');
    let start: usize = if signed { 1 } else { 0 };
    proof {
        if !signed {
            assert(cs@.subrange(0, n as int) =~= cs@);
        }
    }
    match read_digits(&cs, start) {
        Some(v) => {
            if signed && cs[0] == '-' {
                if v <= 0x8000_0000_0000_0000 {
                    let m: i128 = 0 - (v as i128);
                    return Expression::Number(m as i64);
                }
            } else if v <= 0x7fff_ffff_ffff_ffff {
                return Expression::Number(v as i64);
            }
            Expression::Symbol(t)
        },
        None => Expression::Symbol(t),
    }
}

/// The result of reading one expression from `toks` at `pos`: the expression and the
/// position after it, or the reason it cannot be read.
pub open spec fn parse_at(toks: Seq<Seq<char>>, pos: int) -> Result<(Datum, int), Seq<char>>
    decreases toks.len() - pos, 0int,
{
    if pos < 0 || pos >= toks.len() {
        Err("could not get token"@)
    } else if toks[pos] == "("@ {
        read_seq_at(toks, pos + 1, Seq::empty())
    } else if toks[pos] == ")"@ {
        Err("unexpected `)`"@)
    } else {
        Ok((atom_of(toks[pos]), pos + 1))
    }
}

/// The result of reading the rest of a list from `toks` at `pos`, with `acc` read
/// already: the list and the position after its `)`, or the reason it cannot be read.
pub open spec fn read_seq_at(toks: Seq<Seq<char>>, pos: int, acc: Seq<Datum>) -> Result<
    (Datum, int),
    Seq<char>,
>
    decreases toks.len() - pos, 1int,
{
    if pos < 0 || pos >= toks.len() {
        Err("could not find closing `)`"@)
    } else if toks[pos] == ")"@ {
        Ok((Datum::List(acc), pos + 1))
    } else {
        match parse_at(toks, pos) {
            Err(e) => Err(e),
            Ok((e, next)) => if pos < next <= toks.len() {
                read_seq_at(toks, next, acc.push(e))
            } else {
                Err("could not find closing `)`"@)
            },
        }
    }
}

/// The model of a reader's result.
pub open spec fn read_view(r: Result<(Expression, usize), GError>) -> Result<
    (Datum, int),
    Seq<char>,
> {
    match r {
        Ok((e, p)) => Ok((e@, p as int)),
        Err(g) => Err(g@),
    }
}

/// Reads one expression from `tokens` at `pos`: a list if the token there is `(`, an
/// atom otherwise. Returns the expression and the position after it.
pub fn parse(tokens: &[String], pos: usize) -> (r: Result<(Expression, usize), GError>)
    ensures
        read_view(r) == parse_at(texts(tokens@), pos as int),
        r is Ok ==> pos < r->Ok_0.1 <= tokens@.len(),
    decreases tokens@.len() - pos, 0int,
{
    if pos >= tokens.len() {
        return Err(reason("could not get token"));
    }
    let token = &tokens[pos];
    if same_text(token, "(") {
        read_seq(tokens, pos + 1)
    } else if same_text(token, ")") {
        Err(reason("unexpected `)`"))
    } else {
        Ok((parse_atom(token.as_str()), pos + 1))
    }
}

/// Reads the elements of a list from `tokens` at `pos` up to its `)`. Returns the list
/// and the position after the `)`.
pub fn read_seq(tokens: &[String], pos: usize) -> (r: Result<(Expression, usize), GError>)
    requires
        pos <= tokens@.len(),
    ensures
        read_view(r) == read_seq_at(texts(tokens@), pos as int, Seq::empty()),
        r is Ok ==> pos < r->Ok_0.1 <= tokens@.len(),
    decreases tokens@.len() - pos, 1int,
{
    let ghost toks = texts(tokens@);
    let mut res: Vec<Expression> = Vec::new();
    let mut xs: usize = pos;
    assert(crate::expr::views(res@) =~= Seq::<Datum>::empty());
    loop
        invariant
            pos <= xs <= tokens@.len(),
            toks == texts(tokens@),
            read_seq_at(toks, pos as int, Seq::empty()) == read_seq_at(
                toks,
                xs as int,
                crate::expr::views(res@),
            ),
        decreases tokens@.len() - xs,
    {
        if xs >= tokens.len() {
            return Err(reason("could not find closing `)`"));
        }
        if same_text(&tokens[xs], ")") {
            let r = Expression::List(res);
            proof {
                if let Datum::List(items) = r@ {
                    assert(items =~= crate::expr::views(res@));
                }
            }
            return Ok((r, xs + 1));
        }
        match parse(tokens, xs) {
            Err(e) => {
                return Err(e);
            },
            Ok((exp, next)) => {
                let ghost before = crate::expr::views(res@);
                let ghost ev = exp@;
                res.push(exp);
                proof {
                    assert(crate::expr::views(res@) =~= before.push(ev));
                }
                xs = next;
            },
        }
    }
}

} // verus!

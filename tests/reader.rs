use glisp::config::Config;
use glisp::expr::{Expression, GError, Lambda, Primitive};
use glisp::reader::{parse, parse_atom, read_seq, tokenize};
use glisp::render::integer_text;

fn toks(text: &str) -> Vec<String> {
    tokenize(text.to_string())
}

#[test]
fn tokenize_splits_parentheses() {
    assert_eq!(toks("(+ 1 (f x))"), vec!["(", "+", "1", "(", "f", "x", ")", ")"]);
}

#[test]
fn tokenize_drops_comments_and_splits_lines() {
    assert_eq!(toks("(a ; note\n b)"), vec!["(", "a", "b", ")"]);
    assert_eq!(toks("(a\nb)"), vec!["(", "a", "b", ")"]);
    assert_eq!(toks("ab\ncd"), vec!["ab", "cd"]);
    assert_eq!(toks("ab\r\ncd"), vec!["ab", "cd"]);
    assert_eq!(toks("a ; x\n;y\nb"), vec!["a", "b"]);
    assert_eq!(toks("x;y"), vec!["x"]);
}

#[test]
fn tokenize_empty_text() {
    assert!(toks("").is_empty());
    assert!(toks(" \t ; only a comment").is_empty());
}

#[test]
fn tokenize_splits_inside_strings() {
    assert_eq!(toks("\"a(b\""), vec!["\"a", "(", "b\""]);
}

#[test]
fn parse_atom_kinds() {
    assert_eq!(parse_atom("\"hi there\""), Expression::String("hi there".to_string()));
    assert_eq!(parse_atom("\"\""), Expression::String(String::new()));
    assert_eq!(parse_atom("\""), Expression::Symbol("\"".to_string()));
    assert_eq!(parse_atom("true"), Expression::Bool(true));
    assert_eq!(parse_atom("false"), Expression::Bool(false));
    assert_eq!(parse_atom("42"), Expression::Number(42));
    assert_eq!(parse_atom("+7"), Expression::Number(7));
    assert_eq!(parse_atom("-0012"), Expression::Number(-12));
    assert_eq!(parse_atom("foo"), Expression::Symbol("foo".to_string()));
    assert_eq!(parse_atom("-"), Expression::Symbol("-".to_string()));
    assert_eq!(parse_atom("1.5"), Expression::Symbol("1.5".to_string()));
}

#[test]
fn parse_atom_range() {
    assert_eq!(parse_atom("9223372036854775807"), Expression::Number(i64::MAX));
    assert_eq!(parse_atom("-9223372036854775808"), Expression::Number(i64::MIN));
    assert_eq!(parse_atom("9223372036854775808"), Expression::Symbol("9223372036854775808".to_string()));
    assert_eq!(
        parse_atom("123456789012345678901234567890"),
        Expression::Symbol("123456789012345678901234567890".to_string())
    );
}

#[test]
fn parse_nested_list() {
    let t = toks("(a (1 \"s\") b) rest");
    let (e, next) = match parse(&t, 0) {
        Ok(p) => p,
        Err(_) => panic!("did not read"),
    };
    assert_eq!(next, 8);
    assert_eq!(
        e,
        Expression::List(vec![
            Expression::Symbol("a".to_string()),
            Expression::List(vec![Expression::Number(1), Expression::String("s".to_string())]),
            Expression::Symbol("b".to_string()),
        ])
    );
}

#[test]
fn parse_errors() {
    assert_eq!(parse(&toks("(a b"), 0), Err(GError::Reason("could not find closing `)`".to_string())));
    assert_eq!(parse(&toks(")"), 0), Err(GError::Reason("unexpected `)`".to_string())));
    assert_eq!(parse(&toks(""), 0), Err(GError::Reason("could not get token".to_string())));
}

#[test]
fn read_seq_after_open() {
    let t = toks("(1 2) 3");
    assert_eq!(
        read_seq(&t, 1),
        Ok((Expression::List(vec![Expression::Number(1), Expression::Number(2)]), 4))
    );
}

#[test]
fn render_atoms() {
    assert_eq!(Expression::Number(-15).to_string(), "-15");
    assert_eq!(Expression::Number(i64::MIN).to_string(), "-9223372036854775808");
    assert_eq!(Expression::Bool(true).to_string(), "true");
    assert_eq!(Expression::String("x".to_string()).to_string(), "\"x\"");
    assert_eq!(Expression::Symbol("s".to_string()).to_string(), "s");
    assert_eq!(Expression::Func(Primitive::Add).to_string(), "function()");
}

#[test]
fn render_list_quotes_elements() {
    let e = Expression::List(vec![
        Expression::Number(1),
        Expression::String("a".to_string()),
        Expression::List(vec![]),
    ]);
    assert_eq!(e.to_string(), "[\"1\", \"\\\"a\\\"\", \"[]\"]");
}

#[test]
fn render_lambda() {
    let l = Expression::Lambda(Lambda {
        params: Box::new(Expression::List(vec![Expression::Symbol("x".to_string())])),
        body: Box::new(Expression::Symbol("x".to_string())),
    });
    assert_eq!(l.to_string(), "lambda: { params: [\"x\"], body: x }");
}

#[test]
fn word_round_trip() {
    for (text, canon) in [("007", "7"), ("-3", "-3"), ("+4", "4"), ("abc", "abc"), ("true", "true"), ("\"q\"", "\"q\"")] {
        let t = toks(text);
        assert_eq!(t.len(), 1);
        let (e, _) = match parse(&t, 0) {
            Ok(p) => p,
            Err(_) => panic!("did not read"),
        };
        assert_eq!(e.to_string(), canon);
    }
}

#[test]
fn integer_text_values() {
    assert_eq!(integer_text(0), "0");
    assert_eq!(integer_text(1200), "1200");
    assert_eq!(integer_text(-7), "-7");
}

#[test]
fn duplicate_is_equal() {
    let e = Expression::List(vec![Expression::Number(1), Expression::Symbol("a".to_string())]);
    assert_eq!(e.duplicate(), e);
}

#[test]
fn config_defaults() {
    let c = Config::new();
    assert!(c.use_localtime);
    assert!(!c.enable_debug);
    assert!(c.addr_bind.is_empty());
    assert!(c.check());
}

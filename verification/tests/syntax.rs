use minilisp::parser::{parse, Expr, ParsingError};
use minilisp::tokenizer::{tokenize, LexingError, Token};
use std::rc::Rc;

fn tokens(src: &str) -> Vec<Token> {
    tokenize(src)
        .expect("tokens expected")
        .into_iter()
        .map(|(token, _)| token)
        .collect()
}

fn errors(src: &str) -> Vec<(LexingError, std::ops::Range<usize>)> {
    match tokenize(src) {
        Err(errors) => errors,
        Ok(tokens) => panic!("errors expected, got {:?}", tokens),
    }
}

fn sym(name: &str) -> Token {
    Token::Symbol(name.to_string())
}

fn text(s: &str) -> Token {
    Token::StringLiteral(Rc::new(s.to_string()))
}

fn float(x: f64) -> Token {
    Token::Float(x.to_bits())
}

#[test]
fn brackets_keywords_and_symbols() {
    assert_eq!(
        tokens("(begin define set! lambda if do)"),
        vec![
            Token::LBracket,
            Token::Begin,
            Token::Define,
            Token::Assign,
            Token::Lambda,
            Token::If,
            Token::Do,
            Token::RBracket,
        ]
    );
    assert_eq!(
        tokens("beginning iff dot set Begin <= string->int"),
        vec![
            sym("beginning"),
            sym("iff"),
            sym("dot"),
            sym("set"),
            sym("Begin"),
            sym("<="),
            sym("string->int"),
        ]
    );
    assert_eq!(tokens("set!x"), vec![Token::Assign, sym("x")]);
    assert_eq!(tokens("if(do)"), vec![Token::If, Token::LBracket, Token::Do, Token::RBracket]);
    assert_eq!(tokens(""), vec![]);
    assert_eq!(tokens(" \t\n\u{c}"), vec![]);
}

#[test]
fn numbers() {
    assert_eq!(tokens("0 42 -42 007"), vec![Token::Int(0), Token::Int(42), Token::Int(-42), Token::Int(7)]);
    assert_eq!(
        tokens("9223372036854775807 -9223372036854775808"),
        vec![Token::Int(i64::MAX), Token::Int(i64::MIN)]
    );
    assert_eq!(
        tokens("1.5 -1.5 1. .5 -.5 0.1 -0.0"),
        vec![float(1.5), float(-1.5), float(1.0), float(0.5), float(-0.5), float(0.1), float(-0.0)]
    );
    assert_eq!(tokens("1.5.25"), vec![float(1.5), float(0.25)]);
    assert_eq!(tokens("- -a a-5 5-"), vec![sym("-"), sym("-a"), sym("a-"), Token::Int(5), Token::Int(5), sym("-")]);
    assert_eq!(tokens("--5"), vec![sym("--"), Token::Int(5)]);
    assert_eq!(tokens("1a"), vec![Token::Int(1), sym("a")]);
    assert_eq!(tokens("1e5"), vec![Token::Int(1), sym("e"), Token::Int(5)]);
    match &tokens("3.141592653589793")[..] {
        [Token::Float(bits)] => assert_eq!(f64::from_bits(*bits), std::f64::consts::PI),
        other => panic!("{:?}", other),
    }
}

#[test]
fn float_literals_are_read_as_the_hardware_reads_them() {
    let long = format!("17976931348623157{}.0", "0".repeat(292));
    let tiny = format!("0.{}49406564584124654", "0".repeat(323));
    let literals = [
        "0.1",
        "0.3",
        "123456789.123456789",
        "2.2250738585072014",
        "9007199254740993.0",
        "-9007199254740995.",
        ".000001",
        "4.35",
        "1.7976931348623157",
        long.as_str(),
        tiny.as_str(),
    ];
    for literal in literals {
        let expected: f64 = literal.parse().unwrap();
        assert_eq!(tokens(literal), vec![Token::Float(expected.to_bits())], "{}", literal);
    }
    let huge = format!("1{}.0", "0".repeat(400));
    assert_eq!(tokens(&huge), vec![float(f64::INFINITY)]);
}

#[test]
fn strings_and_escapes() {
    assert_eq!(tokens("\"\""), vec![text("")]);
    assert_eq!(tokens("\"hello world\""), vec![text("hello world")]);
    assert_eq!(tokens(r#""a\nb\tc\rd\"e\\f""#), vec![text("a\nb\tc\rd\"e\\f")]);
    assert_eq!(tokens("\"line\nbreak\""), vec![text("line\nbreak")]);
    assert_eq!(tokens("\"é(;#\" x"), vec![text("é(;#"), sym("x")]);
    assert_eq!(tokens("\"a\"\"b\""), vec![text("a"), text("b")]);
}

#[test]
fn booleans_and_comments() {
    assert_eq!(tokens("#t #f"), vec![Token::Bool(true), Token::Bool(false)]);
    assert_eq!(tokens("#true"), vec![Token::Bool(true), sym("rue")]);
    assert_eq!(
        tokens("a ; the rest (is \"ignored\n b ;; again\n;"),
        vec![sym("a"), sym("b")]
    );
}

#[test]
fn spans_are_byte_offsets() {
    let lexed = tokenize("(ab \"é\"  12)").unwrap();
    let spans: Vec<(usize, usize)> = lexed.iter().map(|(_, span)| (span.start, span.end)).collect();
    assert_eq!(spans, vec![(0, 1), (1, 3), (4, 8), (10, 12), (12, 13)]);
}

#[test]
fn lexing_errors() {
    assert_eq!(errors("@"), vec![(LexingError::Other, 0..1)]);
    assert_eq!(errors("a ! b"), vec![(LexingError::Other, 2..3)]);
    assert_eq!(errors("é!"), vec![(LexingError::Other, 0..2), (LexingError::Other, 2..3)]);
    assert_eq!(errors("\r"), vec![(LexingError::Other, 0..1)]);
    assert_eq!(errors("."), vec![(LexingError::Other, 0..1)]);
    assert_eq!(errors("# x"), vec![(LexingError::Other, 0..1)]);
    assert_eq!(errors("sets!"), vec![(LexingError::Other, 4..5)]);
    assert_eq!(errors("(\"abc"), vec![(LexingError::Other, 1..5)]);
    assert_eq!(errors("\"ab\\"), vec![(LexingError::Other, 0..4)]);
    assert_eq!(
        errors("\"ab\\\ncd\""),
        vec![(LexingError::Other, 0..4), (LexingError::Other, 7..8)]
    );
    assert_eq!(errors(r#""a\qb""#), vec![(LexingError::InvalidEscape('q'), 0..6)]);
    assert_eq!(
        errors(r#"x "\0" "\é" y"#),
        vec![(LexingError::InvalidEscape('0'), 2..6), (LexingError::InvalidEscape('é'), 7..12)]
    );
    assert_eq!(
        errors("9223372036854775808 1"),
        vec![(LexingError::NumberParseError, 0..19)]
    );
    assert_eq!(
        errors("-9223372036854775809"),
        vec![(LexingError::NumberParseError, 0..20)]
    );
    assert_eq!(LexingError::default(), LexingError::Other);
}

fn tree(src: &str) -> Expr {
    parse(tokenize(src).unwrap()).expect("expression expected")
}

fn shape(expr: &Expr) -> String {
    match expr {
        Expr::Token(token) => format!("{:?}", token),
        Expr::List(items) => {
            let inner: Vec<String> = items.iter().map(|item| shape(item)).collect();
            format!("[{}]", inner.join(" "))
        }
    }
}

#[test]
fn parsing_builds_nested_lists() {
    assert_eq!(shape(&tree("42")), "Int(42)");
    assert_eq!(shape(&tree("()")), "[]");
    assert_eq!(shape(&tree("(a)")), "[Symbol(\"a\")]");
    assert_eq!(
        shape(&tree("(if (a 1) () ((b)))")),
        "[If [Symbol(\"a\") Int(1)] [] [[Symbol(\"b\")]]]"
    );
}

#[test]
fn parsing_stops_behind_the_first_expression() {
    assert_eq!(shape(&tree("1 2 3")), "Int(1)");
    assert_eq!(shape(&tree("(a) )))")), "[Symbol(\"a\")]");
    assert_eq!(shape(&tree("x (")), "Symbol(\"x\")");
}

#[test]
fn parsing_errors() {
    assert!(matches!(parse(vec![]), Err(ParsingError::ExpectedToken)));
    assert!(matches!(parse(tokenize("(").unwrap()), Err(ParsingError::ExpectedToken)));
    assert!(matches!(parse(tokenize("(a (b)").unwrap()), Err(ParsingError::ExpectedToken)));
    match parse(tokenize("  )").unwrap()) {
        Err(ParsingError::UnexpectedRightBracket(span)) => assert_eq!(span, 2..3),
        other => panic!("{:?}", other.map(|e| shape(&e))),
    }
}

#[test]
fn expressions_can_be_built_by_hand() {
    let built = Expr::list(vec![
        Expr::symbol("+"),
        Expr::token(Token::Int(1)),
        Expr::list(vec![]),
    ]);
    assert_eq!(shape(&built), "[Symbol(\"+\") Int(1) []]");
    let copy = Token::Symbol("x".to_string()).clone();
    assert_eq!(copy, sym("x"));
}

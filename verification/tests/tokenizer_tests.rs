use ps_interpreter::error::PsError;
use ps_interpreter::tokenizer::{parse_atomic_token, tokenize, Token};
use ps_interpreter::value::Value;

fn chars(s: &str) -> Vec<char> {
    s.chars().collect()
}

// A procedure literal with nested braces tokenizes to a single procedure
// token whose body keeps the nesting: two inner procedure literals and one
// executable name.
#[test]
fn test_nested_braces_single_token() {
    let toks = tokenize("{ { 1 } { 2 } ifelse }").unwrap();
    assert_eq!(toks.len(), 1);
    match &toks[0] {
        Token::Literal(Value::Procedure(body, None)) => {
            assert_eq!(body.len(), 3);
            match &body[0] {
                Token::Literal(Value::Procedure(inner, None)) => {
                    assert_eq!(inner.len(), 1);
                    match &inner[0] {
                        Token::Literal(Value::Int(1)) => {},
                        _ => panic!("expected inner 1"),
                    }
                },
                _ => panic!("expected first nested procedure"),
            }
            match &body[1] {
                Token::Literal(Value::Procedure(inner, None)) => {
                    assert_eq!(inner.len(), 1);
                    match &inner[0] {
                        Token::Literal(Value::Int(2)) => {},
                        _ => panic!("expected inner 2"),
                    }
                },
                _ => panic!("expected second nested procedure"),
            }
            match &body[2] {
                Token::ExecName(n) => assert_eq!(n.iter().collect::<String>(), "ifelse"),
                _ => panic!("expected executable name"),
            }
        },
        _ => panic!("expected one procedure literal token"),
    }
}

#[test]
fn test_unmatched_open_brace_fails() {
    assert!(matches!(tokenize("{ 1 2"), Err(PsError::SyntaxError)));
}

#[test]
fn test_stray_close_brace_fails() {
    assert!(matches!(tokenize("1 }"), Err(PsError::SyntaxError)));
}

#[test]
fn test_stray_close_paren_fails() {
    assert!(matches!(tokenize("1 )"), Err(PsError::SyntaxError)));
}

// An unterminated string literal takes the rest of the input verbatim.
#[test]
fn test_unterminated_string_takes_rest() {
    let toks = tokenize("(abc").unwrap();
    assert_eq!(toks.len(), 1);
    match &toks[0] {
        Token::Literal(Value::Str(s)) => assert_eq!(s.iter().collect::<String>(), "abc"),
        _ => panic!("expected string literal"),
    }
}

#[test]
fn test_empty_source() {
    let toks = tokenize("").unwrap();
    assert_eq!(toks.len(), 0);
}

#[test]
fn test_atomic_classification_priority() {
    match parse_atomic_token(&chars("+5")).unwrap() {
        Token::Literal(Value::Int(5)) => {},
        _ => panic!("expected integer 5"),
    }
    match parse_atomic_token(&chars("-12")).unwrap() {
        Token::Literal(Value::Int(-12)) => {},
        _ => panic!("expected integer -12"),
    }
    match parse_atomic_token(&chars("3.14")).unwrap() {
        Token::Literal(Value::Real(l)) => assert_eq!(l.iter().collect::<String>(), "3.14"),
        _ => panic!("expected real 3.14"),
    }
    match parse_atomic_token(&chars("1e5")).unwrap() {
        Token::Literal(Value::Real(l)) => assert_eq!(l.iter().collect::<String>(), "1e5"),
        _ => panic!("expected real 1e5"),
    }
    match parse_atomic_token(&chars("true")).unwrap() {
        Token::Literal(Value::Bool(true)) => {},
        _ => panic!("expected boolean true"),
    }
    match parse_atomic_token(&chars("false")).unwrap() {
        Token::Literal(Value::Bool(false)) => {},
        _ => panic!("expected boolean false"),
    }
    match parse_atomic_token(&chars("/x")).unwrap() {
        Token::Literal(Value::Name(n)) => assert_eq!(n.iter().collect::<String>(), "x"),
        _ => panic!("expected name x"),
    }
    match parse_atomic_token(&chars("foo")).unwrap() {
        Token::ExecName(n) => assert_eq!(n.iter().collect::<String>(), "foo"),
        _ => panic!("expected executable name"),
    }
}

// An all-digit token too large for the integer type falls through to the
// real classification.
#[test]
fn test_integer_overflow_becomes_real() {
    match parse_atomic_token(&chars("2147483648")).unwrap() {
        Token::Literal(Value::Real(l)) => {
            assert_eq!(l.iter().collect::<String>(), "2147483648")
        },
        _ => panic!("expected real literal"),
    }
    match parse_atomic_token(&chars("2147483647")).unwrap() {
        Token::Literal(Value::Int(2147483647)) => {},
        _ => panic!("expected max integer"),
    }
    match parse_atomic_token(&chars("-2147483648")).unwrap() {
        Token::Literal(Value::Int(-2147483648)) => {},
        _ => panic!("expected min integer"),
    }
}

// A lone prefix, a double sign and a bare dot are executable names, not
// numbers.
#[test]
fn test_non_numeric_atoms() {
    match parse_atomic_token(&chars("--5")).unwrap() {
        Token::ExecName(n) => assert_eq!(n.iter().collect::<String>(), "--5"),
        _ => panic!("expected executable name"),
    }
    match parse_atomic_token(&chars(".")).unwrap() {
        Token::ExecName(n) => assert_eq!(n.iter().collect::<String>(), "."),
        _ => panic!("expected executable name"),
    }
    match parse_atomic_token(&chars("/")).unwrap() {
        Token::Literal(Value::Name(n)) => assert_eq!(n.len(), 0),
        _ => panic!("expected empty name"),
    }
}

// Whitespace of every accepted kind separates tokens.
#[test]
fn test_whitespace_separation() {
    let toks = tokenize(" 1\t2\n3\r4 ").unwrap();
    assert_eq!(toks.len(), 4);
    for (k, t) in toks.iter().enumerate() {
        match t {
            Token::Literal(Value::Int(n)) => assert_eq!(*n, k as i32 + 1),
            _ => panic!("expected integer"),
        }
    }
}

// Braces and parentheses end an atomic token without needing whitespace.
#[test]
fn test_delimiters_end_atoms() {
    let toks = tokenize("1{2}(s)3").unwrap();
    assert_eq!(toks.len(), 4);
    match &toks[0] {
        Token::Literal(Value::Int(1)) => {},
        _ => panic!("expected 1"),
    }
    match &toks[1] {
        Token::Literal(Value::Procedure(body, None)) => assert_eq!(body.len(), 1),
        _ => panic!("expected procedure"),
    }
    match &toks[2] {
        Token::Literal(Value::Str(s)) => assert_eq!(s.iter().collect::<String>(), "s"),
        _ => panic!("expected string"),
    }
    match &toks[3] {
        Token::Literal(Value::Int(3)) => {},
        _ => panic!("expected 3"),
    }
}

use ps_interpreter::error::PsError;
use ps_interpreter::value::Value;
use ps_interpreter::{Interpreter, ScopeMode};

// Integer division truncates toward zero and the remainder carries the sign
// of the dividend.
#[test]
fn test_div_truncates_toward_zero() {
    let mut i = Interpreter::new(ScopeMode::Dynamic);
    i.interpret("7 -2 div").unwrap();
    match i.peek().unwrap() {
        Value::Int(n) => assert_eq!(*n, -3),
        _ => panic!("expected int"),
    }

    let mut j = Interpreter::new(ScopeMode::Dynamic);
    j.interpret("-7 2 mod").unwrap();
    match j.peek().unwrap() {
        Value::Int(n) => assert_eq!(*n, -1),
        _ => panic!("expected int"),
    }
}

#[test]
fn test_div_by_zero_range_error() {
    let mut i = Interpreter::new(ScopeMode::Dynamic);
    assert_eq!(i.interpret("6 0 div"), Err(PsError::RangeError));
    assert_eq!(i.len(), 2, "a failing primitive must not consume its operands");
}

#[test]
fn test_add_overflow_range_error() {
    let mut i = Interpreter::new(ScopeMode::Dynamic);
    assert_eq!(i.interpret("2147483647 1 add"), Err(PsError::RangeError));
}

#[test]
fn test_undefined_name_error() {
    let mut i = Interpreter::new(ScopeMode::Dynamic);
    assert_eq!(i.interpret("no_such_name"), Err(PsError::UndefinedName));
}

#[test]
fn test_type_error_kind() {
    let mut i = Interpreter::new(ScopeMode::Dynamic);
    assert_eq!(i.interpret("1 2 and"), Err(PsError::TypeError));
}

#[test]
fn test_underflow_error_kind() {
    let mut i = Interpreter::new(ScopeMode::Dynamic);
    assert_eq!(i.interpret("1 add"), Err(PsError::StackUnderflow));
}

#[test]
fn test_scope_error_kind() {
    let mut i = Interpreter::new(ScopeMode::Dynamic);
    assert_eq!(i.interpret("end"), Err(PsError::ScopeError));
}

#[test]
fn test_syntax_error_kind() {
    let mut i = Interpreter::new(ScopeMode::Dynamic);
    assert_eq!(i.interpret("{ 1"), Err(PsError::SyntaxError));
}

// Unbounded self-recursion is cut off by the engine's depth budget instead
// of exhausting the host stack.
#[test]
fn test_recursion_limit() {
    let mut i = Interpreter::new(ScopeMode::Dynamic);
    i.interpret("/f { f } def").unwrap();
    assert_eq!(i.interpret("f"), Err(PsError::RecursionLimit));
}

// The last definition of a name wins within one frame.
#[test]
fn test_redefinition_last_wins() {
    let mut i = Interpreter::new(ScopeMode::Dynamic);
    i.interpret("/x 1 def /x 2 def x").unwrap();
    match i.peek().unwrap() {
        Value::Int(2) => {},
        _ => panic!("expected 2"),
    }
}

// A binding in a newer frame shadows an older one, and closing the scope
// restores visibility of the outer binding.
#[test]
fn test_shadowing_and_restore() {
    let mut i = Interpreter::new(ScopeMode::Dynamic);
    i.interpret("/x 1 def 1 dict begin /x 2 def x end x").unwrap();
    let stack = i.opstack_snapshot();
    assert_eq!(stack.len(), 2);
    match (&stack[0], &stack[1]) {
        (Value::Int(2), Value::Int(1)) => {},
        _ => panic!("expected [2, 1]"),
    }
}

#[test]
fn test_copy_zero() {
    let mut i = Interpreter::new(ScopeMode::Dynamic);
    i.interpret("1 2 0 copy").unwrap();
    assert_eq!(i.len(), 2);
}

#[test]
fn test_repeat_negative_count() {
    let mut i = Interpreter::new(ScopeMode::Dynamic);
    assert_eq!(i.interpret("-1 { 1 } repeat"), Err(PsError::RangeError));
}

#[test]
fn test_repeat_zero_count() {
    let mut i = Interpreter::new(ScopeMode::Dynamic);
    i.interpret("0 { 1 } repeat").unwrap();
    assert_eq!(i.len(), 0);
}

// A counted loop with a negative increment counts down to the limit.
#[test]
fn test_for_negative_step() {
    let mut i = Interpreter::new(ScopeMode::Dynamic);
    i.interpret("3 -1 1 { } for").unwrap();
    let stack = i.opstack_snapshot();
    assert_eq!(stack.len(), 3);
    match (&stack[0], &stack[1], &stack[2]) {
        (Value::Int(3), Value::Int(2), Value::Int(1)) => {},
        _ => panic!("expected [3, 2, 1]"),
    }
}

#[test]
fn test_for_zero_step_range_error() {
    let mut i = Interpreter::new(ScopeMode::Dynamic);
    assert_eq!(i.interpret("1 0 3 { } for"), Err(PsError::RangeError));
}

#[test]
fn test_string_equality() {
    let mut i = Interpreter::new(ScopeMode::Dynamic);
    i.interpret("(ab) (ab) eq").unwrap();
    match i.peek().unwrap() {
        Value::Bool(true) => {},
        _ => panic!("expected true"),
    }

    let mut j = Interpreter::new(ScopeMode::Dynamic);
    j.interpret("(ab) (ac) eq").unwrap();
    match j.peek().unwrap() {
        Value::Bool(false) => {},
        _ => panic!("expected false"),
    }
}

#[test]
fn test_peek_empty() {
    let i = Interpreter::new(ScopeMode::Dynamic);
    assert!(i.peek().is_none());
}

#[test]
fn test_empty_program() {
    let mut i = Interpreter::new(ScopeMode::Dynamic);
    i.interpret("").unwrap();
    assert_eq!(i.len(), 0);
}

// print appends the string's characters to the output, with no newline.
#[test]
fn test_print_output_text() {
    let mut i = Interpreter::new(ScopeMode::Dynamic);
    i.interpret("(hi) print").unwrap();
    assert_eq!(i.take_output().iter().collect::<String>(), "hi");
    // drained: a second take yields nothing
    assert_eq!(i.take_output().len(), 0);
}

// = prints the text form of any value, one per line.
#[test]
fn test_report_output_text() {
    let mut i = Interpreter::new(ScopeMode::Dynamic);
    i.interpret("42 =").unwrap();
    assert_eq!(i.take_output().iter().collect::<String>(), "42\n");

    i.interpret("-5 =").unwrap();
    assert_eq!(i.take_output().iter().collect::<String>(), "-5\n");

    i.interpret("true =").unwrap();
    assert_eq!(i.take_output().iter().collect::<String>(), "true\n");

    i.interpret("(hey) =").unwrap();
    assert_eq!(i.take_output().iter().collect::<String>(), "hey\n");
}

// == prints the syntactic form: strings keep their parentheses, names their
// prefix.
#[test]
fn test_syntactic_report_output_text() {
    let mut i = Interpreter::new(ScopeMode::Dynamic);
    i.interpret("(hello) ==").unwrap();
    assert_eq!(i.take_output().iter().collect::<String>(), "(hello)\n");

    i.interpret("/nm ==").unwrap();
    assert_eq!(i.take_output().iter().collect::<String>(), "/nm\n");
}

// An inline procedure literal run by a conditional resolves names against
// the ambient environment even in lexical mode (no capture event occurred).
#[test]
fn test_inline_procedure_ambient_resolution() {
    let mut i = Interpreter::new(ScopeMode::Lexical);
    i.interpret("/x 7 def true { x } if").unwrap();
    match i.peek().unwrap() {
        Value::Int(7) => {},
        _ => panic!("expected 7"),
    }
}

// getinterval with a zero count yields the empty string.
#[test]
fn test_getinterval_empty() {
    let mut i = Interpreter::new(ScopeMode::Dynamic);
    i.interpret("(abc) 1 0 getinterval").unwrap();
    match i.peek().unwrap() {
        Value::Str(s) => assert_eq!(s.len(), 0),
        _ => panic!("expected empty string"),
    }
}

// A real literal is carried through the machine unchanged.
#[test]
fn test_real_carried_through() {
    let mut i = Interpreter::new(ScopeMode::Dynamic);
    i.interpret("3.5 dup").unwrap();
    let stack = i.opstack_snapshot();
    assert_eq!(stack.len(), 2);
    match &stack[1] {
        Value::Real(l) => assert_eq!(l.iter().collect::<String>(), "3.5"),
        _ => panic!("expected real"),
    }
}

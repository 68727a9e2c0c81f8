use ps_interpreter::value::Value;
use ps_interpreter::{Interpreter, ScopeMode};

// Normal test case to ensure dynamic scoping is working.
#[test]
fn test_dynamic_scope() {
    let mut postscript_interpreter = Interpreter::new(ScopeMode::Dynamic);

    // /x 10 def
    // { x }  pushing the value should see dynamic x
    postscript_interpreter.interpret("/x 10 def x").unwrap();

    match postscript_interpreter.peek().unwrap() {
        Value::Int(10) => {},
        _ => panic!("expected 10"),
    }
}

// Normal test case for ensuring lexical scoping is working.
#[test]
fn test_lexical_scope_basic() {
    let mut postscript_interpreter = Interpreter::new(ScopeMode::Lexical);

    // Define x = 10
    postscript_interpreter.interpret("/x 10 def").unwrap();

    // Define f as a procedure that returns x
    postscript_interpreter.interpret("/f { x } def").unwrap();

    // Shadow x at runtime
    postscript_interpreter.interpret("/x 20 def").unwrap();

    // Call f
    postscript_interpreter.interpret("f").unwrap();

    // Lexical scope → should use x = 10
    match postscript_interpreter.peek().unwrap() {
        Value::Int(10) => {},
        _ => panic!("Lexical scoping failed: expected 10"),
    }
}

// Normal test case for testing nested lexical scoping.
#[test]
fn test_lexical_scope_nested() {
    let mut interp = Interpreter::new(ScopeMode::Lexical);

    // Outer variable
    interp.interpret("/a 100 def").unwrap();

    // g returns a
    interp.interpret("/g { a } def").unwrap();

    // f redefines a, then calls g
    // Under lexical scoping:
    // - g should see the a from where *g was defined*, not the a inside f
    interp.interpret("/f { /a 200 def g } def").unwrap();

    // Run f → should call g → should see a = 100
    interp.interpret("f").unwrap();

    match interp.peek().unwrap() {
        Value::Int(100) => {},
        _ => panic!("Lexical scoping failed: nested lookup should use original 'a' = 100"),
    }
}

// Dynamic-mode contrast for the basic shadowing program: the same source
// must observe the later redefinition of x.
#[test]
fn test_dynamic_scope_contrast_basic() {
    let mut interp = Interpreter::new(ScopeMode::Dynamic);

    interp.interpret("/x 10 def /f { x } def /x 20 def f").unwrap();

    match interp.peek().unwrap() {
        Value::Int(20) => {},
        _ => panic!("Dynamic scoping failed: expected 20"),
    }
}

// Dynamic-mode contrast for the nested program: the call to g inside f must
// see f's locally shadowed a.
#[test]
fn test_dynamic_scope_contrast_nested() {
    let mut interp = Interpreter::new(ScopeMode::Dynamic);

    interp
        .interpret("/a 100 def /g { a } def /f { /a 200 def g } def f")
        .unwrap();

    match interp.peek().unwrap() {
        Value::Int(200) => {},
        _ => panic!("Dynamic scoping failed: expected 200"),
    }
}

use ps_interpreter::dict::DictStack;
use ps_interpreter::error::PsError;
use ps_interpreter::value::Value;

fn chars(s: &str) -> Vec<char> {
    s.chars().collect()
}

// A definition followed immediately by a dynamic lookup of the same name in
// the same frame returns the defined value.
#[test]
fn test_define_then_lookup_dynamic() {
    let mut d = DictStack::new();
    d.define(&chars("x"), Value::Int(10));
    match d.lookup_dynamic(&chars("x")) {
        Some(Value::Int(10)) => {},
        _ => panic!("expected 10"),
    }
}

#[test]
fn test_lookup_absent_name() {
    let d = DictStack::new();
    assert!(d.lookup_dynamic(&chars("missing")).is_none());
}

// The environment depth after open_scope then close_scope equals the depth
// before.
#[test]
fn test_scope_round_trip_depth() {
    let mut d = DictStack::new();
    let before = d.depth();
    let h = d.alloc_frame();
    d.open_scope(h);
    assert_eq!(d.depth(), before + 1);
    d.close_scope().unwrap();
    assert_eq!(d.depth(), before);
}

// close_scope at depth one fails with a scope error.
#[test]
fn test_close_scope_at_global() {
    let mut d = DictStack::new();
    assert_eq!(d.depth(), 1);
    assert_eq!(d.close_scope(), Err(PsError::ScopeError));
    assert_eq!(d.depth(), 1);
}

// A newer frame shadows an older binding; a lexical lookup against a
// captured environment is the identical search over the captured handles.
#[test]
fn test_shadowing_and_lexical_search() {
    let mut d = DictStack::new();
    d.define(&chars("x"), Value::Int(1));
    let h = d.alloc_frame();
    d.open_scope(h);
    d.define(&chars("x"), Value::Int(2));
    match d.lookup_dynamic(&chars("x")) {
        Some(Value::Int(2)) => {},
        _ => panic!("expected shadowing binding 2"),
    }
    let captured = d.env();
    match d.lookup_lexical(&chars("x"), &captured) {
        Some(Value::Int(2)) => {},
        _ => panic!("expected 2 through the captured handles"),
    }
    d.close_scope().unwrap();
    match d.lookup_dynamic(&chars("x")) {
        Some(Value::Int(1)) => {},
        _ => panic!("expected outer binding 1 restored"),
    }
}

// A captured snapshot is independently owned: a later redefinition of the
// captured name is not visible through it.
#[test]
fn test_snapshot_is_independent() {
    let mut d = DictStack::new();
    d.define(&chars("x"), Value::Int(1));
    let captured = d.snapshot_live();
    d.define(&chars("x"), Value::Int(2));
    match d.lookup_lexical(&chars("x"), &captured) {
        Some(Value::Int(1)) => {},
        _ => panic!("the snapshot must keep the value captured at definition time"),
    }
    match d.lookup_dynamic(&chars("x")) {
        Some(Value::Int(2)) => {},
        _ => panic!("the live environment must see the redefinition"),
    }
}

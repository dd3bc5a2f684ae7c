use minilua::env::{Env, GEnv};
use minilua::value::{Error, Function, Value};

fn names(list: &[&str]) -> Vec<String> {
    list.iter().map(|s| s.to_string()).collect()
}

fn is_number(v: &Result<Value, Error>, x: f64) -> bool {
    matches!(v, Ok(Value::Number(b)) if *b == x.to_bits())
}

fn number(x: f64) -> Value<'static> {
    Value::Number(x.to_bits())
}

#[test]
fn globals_get_and_set() {
    let mut g = GEnv::new();
    let x = "x".to_string();
    assert!(matches!(g.get(&x), Err(Error::UndefinedVariable(ref n)) if n == "x"));
    g.set(&x, number(1.0));
    assert!(is_number(&g.get(&x), 1.0));
    g.set(&x, Value::Nil);
    assert!(matches!(g.get(&x), Ok(Value::Nil)));
    assert!(matches!(g.get(&"y".to_string()), Err(Error::UndefinedVariable(_))));
}

#[test]
fn lookup_goes_innermost_first_then_global() {
    let outer = names(&["a", "b"]);
    let inner = names(&["b", "c"]);
    let mut g = GEnv::new();
    g.set(&"a".to_string(), number(100.0));
    g.set(&"z".to_string(), number(26.0));
    let mut env = Env::new(g);
    assert!(env.current().is_none());
    assert!(is_number(&env.lookup(&"a".to_string()), 100.0));
    let first = env.extend(None, &outer, vec![number(1.0), number(2.0)]);
    env.enter(first);
    let second = env.extend(first, &inner, vec![number(20.0), number(30.0)]);
    env.enter(second);
    assert_eq!(env.current(), second);
    assert!(is_number(&env.lookup(&"a".to_string()), 1.0));
    assert!(is_number(&env.lookup(&"b".to_string()), 20.0));
    assert!(is_number(&env.lookup(&"c".to_string()), 30.0));
    assert!(is_number(&env.lookup(&"z".to_string()), 26.0));
    assert!(matches!(env.lookup(&"q".to_string()), Err(Error::UndefinedVariable(ref n)) if n == "q"));
    env.enter(first);
    assert!(is_number(&env.lookup(&"b".to_string()), 2.0));
    assert!(matches!(env.lookup(&"c".to_string()), Err(Error::UndefinedVariable(_))));
}

#[test]
fn set_writes_the_innermost_slot_or_the_global() {
    let outer = names(&["a"]);
    let inner = names(&["b"]);
    let mut env = Env::new(GEnv::new());
    let first = env.extend(None, &outer, vec![]);
    let second = env.extend(first, &inner, vec![]);
    env.enter(second);
    assert!(matches!(env.lookup(&"a".to_string()), Ok(Value::Nil)));
    env.set(&"a".to_string(), number(1.0));
    env.set(&"b".to_string(), number(2.0));
    env.set(&"g".to_string(), number(3.0));
    assert!(is_number(&env.lookup(&"a".to_string()), 1.0));
    assert!(is_number(&env.lookup(&"b".to_string()), 2.0));
    assert!(is_number(&env.lookup(&"g".to_string()), 3.0));
    // the write to `a` went to the shared outer frame, that to `g` to the globals
    env.enter(first);
    assert!(is_number(&env.lookup(&"a".to_string()), 1.0));
    assert!(matches!(env.lookup(&"b".to_string()), Err(Error::UndefinedVariable(_))));
    env.enter(None);
    assert!(matches!(env.lookup(&"a".to_string()), Err(Error::UndefinedVariable(_))));
    assert!(is_number(&env.lookup(&"g".to_string()), 3.0));
}

#[test]
fn two_chains_on_one_frame_share_its_slots() {
    let shared = names(&["x"]);
    let left = names(&["l"]);
    let right = names(&["r"]);
    let mut env = Env::new(GEnv::new());
    let base = env.extend(None, &shared, vec![number(1.0)]);
    let a = env.extend(base, &left, vec![]);
    let b = env.extend(base, &right, vec![]);
    env.enter(a);
    env.set(&"x".to_string(), number(2.0));
    env.enter(b);
    assert!(is_number(&env.lookup(&"x".to_string()), 2.0));
    assert!(matches!(env.lookup(&"l".to_string()), Err(Error::UndefinedVariable(_))));
}

#[test]
fn extend_pads_with_nil_and_drops_extras() {
    let three = names(&["a", "b", "c"]);
    let mut env = Env::new(GEnv::new());
    let short = env.extend(None, &three, vec![number(1.0)]);
    env.enter(short);
    assert!(is_number(&env.lookup(&"a".to_string()), 1.0));
    assert!(matches!(env.lookup(&"b".to_string()), Ok(Value::Nil)));
    assert!(matches!(env.lookup(&"c".to_string()), Ok(Value::Nil)));
    let long = env.extend(
        None,
        &three,
        vec![number(1.0), number(2.0), number(3.0), Value::Function(Function::Print)],
    );
    env.enter(long);
    assert!(is_number(&env.lookup(&"c".to_string()), 3.0));
    assert_eq!(long, Some(1));
}

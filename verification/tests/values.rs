use minilua::host::Request;
use minilua::value::{num_eq, num_le, num_lt, num_neg, Error, Function, Value, ValueList};

fn samples() -> Vec<f64> {
    vec![
        0.0,
        -0.0,
        1.0,
        -1.0,
        0.5,
        -0.5,
        2.0,
        1e300,
        -1e300,
        f64::MIN_POSITIVE,
        -f64::MIN_POSITIVE,
        5e-324,
        -5e-324,
        f64::MAX,
        f64::MIN,
        f64::INFINITY,
        f64::NEG_INFINITY,
        f64::NAN,
        -f64::NAN,
        f64::from_bits(0x7ff0_0000_0000_0001),
        f64::from_bits(0xffff_ffff_ffff_ffff),
    ]
}

#[test]
fn number_comparisons_agree_with_doubles() {
    for a in samples() {
        for b in samples() {
            let (x, y) = (a.to_bits(), b.to_bits());
            assert_eq!(num_eq(x, y), a == b, "{} == {}", a, b);
            assert_eq!(num_lt(x, y), a < b, "{} < {}", a, b);
            assert_eq!(num_le(x, y), a <= b, "{} <= {}", a, b);
        }
    }
}

#[test]
fn number_negation_agrees_with_doubles() {
    for a in samples() {
        assert_eq!(num_neg(a.to_bits()), (-a).to_bits(), "-{}", a);
    }
    assert_eq!(num_neg(0), 0x8000_0000_0000_0000);
    assert_eq!(num_neg(0x8000_0000_0000_0000), 0);
}

#[test]
fn nil_true_false_render_as_tokens() {
    assert_eq!(Value::Nil.display(), Some("nil".to_string()));
    assert_eq!(Value::Bool(true).display(), Some("true".to_string()));
    assert_eq!(Value::Bool(false).display(), Some("false".to_string()));
}

#[test]
fn display_of_the_other_variants() {
    assert_eq!(Value::String("a\tb".to_string()).display(), Some("a\tb".to_string()));
    assert_eq!(Value::String(String::new()).display(), Some(String::new()));
    assert_eq!(Value::Function(Function::Print).display(), Some("<function>".to_string()));
    assert_eq!(Value::Number(1.0f64.to_bits()).display(), None);
}

#[test]
fn display_is_the_same_every_time() {
    let v = Value::String("again".to_string());
    assert_eq!(v.display(), v.display());
    assert_eq!(v.clone().display(), v.display());
}

#[test]
fn as_bool_takes_booleans_only() {
    assert!(matches!(Value::Bool(true).as_bool(), Ok(true)));
    assert!(matches!(Value::Bool(false).as_bool(), Ok(false)));
    assert!(matches!(Value::Nil.as_bool(), Err(Error::TypeError)));
    assert!(matches!(Value::Number(0).as_bool(), Err(Error::TypeError)));
    assert!(matches!(Value::String("true".to_string()).as_bool(), Err(Error::TypeError)));
    assert!(matches!(Value::Function(Function::Print).as_bool(), Err(Error::TypeError)));
}

#[test]
fn equality_is_by_variant_and_content() {
    let one = Value::Number(1.0f64.to_bits());
    assert!(Value::Nil.eq(&Value::Nil));
    assert!(!Value::Nil.eq(&Value::Bool(false)));
    assert!(Value::Bool(true).eq(&Value::Bool(true)));
    assert!(!Value::Bool(true).eq(&Value::Bool(false)));
    assert!(one.eq(&Value::Number(1.0f64.to_bits())));
    assert!(!one.eq(&Value::String("1".to_string())));
    assert!(Value::String("x".to_string()).eq(&Value::String("x".to_string())));
    assert!(!Value::String("x".to_string()).eq(&Value::String("y".to_string())));
    assert!(Value::Function(Function::Print).eq(&Value::Function(Function::Print)));
    assert!(Value::Nil.ne(&one));
    assert!(!one.ne(&one));
    let nan = Value::Number(f64::NAN.to_bits());
    assert!(!nan.eq(&nan));
    assert!(nan.ne(&nan));
}

#[test]
fn ordering_takes_numbers_only() {
    let one = Value::Number(1.0f64.to_bits());
    let two = Value::Number(2.0f64.to_bits());
    assert!(matches!(one.lt(&two), Ok(true)));
    assert!(matches!(two.lt(&one), Ok(false)));
    assert!(matches!(one.le(&one), Ok(true)));
    assert!(matches!(two.le(&one), Ok(false)));
    let a = Value::String("a".to_string());
    let b = Value::String("b".to_string());
    assert!(matches!(a.lt(&b), Err(Error::TypeError)));
    assert!(matches!(a.le(&b), Err(Error::TypeError)));
    assert!(matches!(one.lt(&a), Err(Error::TypeError)));
    assert!(matches!(Value::Nil.le(&one), Err(Error::TypeError)));
}

#[test]
fn arithmetic_takes_numbers_only() {
    let x = Value::Number(1.5f64.to_bits());
    let y = Value::Number(2.0f64.to_bits());
    assert!(matches!(x.add(&y), Ok(Request::Add(a, b)) if a == 1.5f64.to_bits() && b == 2.0f64.to_bits()));
    assert!(matches!(x.sub(&y), Ok(Request::Sub(a, b)) if a == 1.5f64.to_bits() && b == 2.0f64.to_bits()));
    assert!(matches!(x.mul(&y), Ok(Request::Mul(a, b)) if a == 1.5f64.to_bits() && b == 2.0f64.to_bits()));
    assert!(matches!(x.neg(), Ok(Value::Number(a)) if a == (-1.5f64).to_bits()));
    let s = Value::String("1".to_string());
    assert!(matches!(x.add(&s), Err(Error::TypeError)));
    assert!(matches!(s.sub(&x), Err(Error::TypeError)));
    assert!(matches!(Value::Nil.mul(&Value::Nil), Err(Error::TypeError)));
    assert!(matches!(Value::Bool(true).neg(), Err(Error::TypeError)));
}

#[test]
fn a_list_joins_with_tabs_from_the_head() {
    let list = ValueList::Cons(
        Value::String("a".to_string()),
        Box::new(ValueList::Cons(
            Value::Nil,
            Box::new(ValueList::Cons(Value::Bool(true), Box::new(ValueList::Empty))),
        )),
    );
    assert_eq!(list.joined(), "a\tnil\ttrue");
    assert_eq!(ValueList::Empty.joined(), "");
    assert_eq!(ValueList::Cons(Value::Nil, Box::new(ValueList::Empty)).joined(), "nil");
    let values = list.into_vec();
    assert_eq!(values.len(), 3);
    assert!(matches!(values[0], Value::Bool(true)));
    assert!(matches!(values[1], Value::Nil));
    assert!(matches!(values[2], Value::String(ref s) if s == "a"));
}

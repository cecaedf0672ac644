use canary::ident::{Ident, Strings};
use canary::value::{Heap, Value};
use canary::Error;

fn ident(name: &str) -> Ident {
    Strings::new().intern(name).unwrap()
}

fn s(text: &str) -> Value {
    Value::Str(text.to_string())
}

#[test]
fn interning_is_idempotent() {
    let mut strings = Strings::new();
    let a: Ident = strings.intern("name").unwrap();
    assert_eq!(strings.len(), 1);
    let b: Ident = strings.intern("name").unwrap();
    assert_eq!(strings.len(), 1);
    assert_eq!(a, b);
    let c: String = strings.intern("other text").unwrap();
    assert_eq!(c, "other text");
    assert_eq!(strings.len(), 2);
    let across: Ident = Strings::new().intern("name").unwrap();
    assert_eq!(a, across);
}

#[test]
fn identifiers_obey_the_grammar() {
    let mut strings = Strings::new();
    assert!(strings.intern::<Ident>("a_1").is_ok());
    assert!(strings.intern::<Ident>("été").is_ok());
    for bad in ["", "1a", "_a", "a-b", "a b"] {
        match strings.intern::<Ident>(bad) {
            Err(Error::InvalidIdent { input }) => assert_eq!(input, bad),
            _ => panic!("{:?} should be no identifier", bad),
        }
    }
    assert_eq!(
        Error::InvalidIdent { input: "a b".to_string() }.to_string(),
        "invalid identifier \"a b\""
    );
}

#[test]
fn integer_arithmetic() {
    let mut heap = Heap::new();
    assert_eq!(Value::Int(2).add(Value::Int(3), &mut heap).unwrap(), Value::Int(5));
    assert_eq!(Value::Int(i32::MAX).add(Value::Int(1), &mut heap).unwrap(), Value::Int(i32::MIN));
    assert_eq!(Value::Int(2).sub(Value::Int(3)).unwrap(), Value::Int(-1));
    assert_eq!(Value::Int(6).mul(Value::Int(7)).unwrap(), Value::Int(42));
    assert_eq!(Value::Int(7).div(Value::Int(2)).unwrap(), Value::Int(3));
    assert_eq!(Value::Int(-7).div(Value::Int(2)).unwrap(), Value::Int(-3));
    assert_eq!(Value::Int(7).div(Value::Int(-2)).unwrap(), Value::Int(-3));
    assert_eq!(Value::Int(i32::MIN).div(Value::Int(-1)).unwrap(), Value::Int(i32::MIN));
}

#[test]
fn arithmetic_errors() {
    let mut heap = Heap::new();
    assert!(matches!(Value::Int(1).div(Value::Int(0)), Err(Error::DividedByZero)));
    assert!(matches!(s("a").div(Value::Int(0)), Err(Error::DividedByZero)));
    match Value::Int(1).div(s("a")) {
        Err(Error::TypeMismatch { expected, found }) => assert_eq!((expected, found), ("Int", "Str")),
        _ => panic!("expected a type mismatch"),
    }
    assert!(matches!(Value::Nil(()).add(Value::Int(1), &mut heap), Err(Error::IllegalAdd)));
    assert!(matches!(Value::Nil(()).mul(Value::Int(1)), Err(Error::IllegalMultiply)));
    assert!(matches!(s("a").mul(Value::Int(-1)), Err(Error::NegativeRepetition)));
    match Value::Int(1).sub(Value::Nil(())) {
        Err(e) => assert_eq!(e.to_string(), "expected Int, found Nil"),
        _ => panic!("expected a type mismatch"),
    }
}

#[test]
fn strings_add_and_repeat() {
    let mut heap = Heap::new();
    assert_eq!(s("ab").add(Value::Int(-12), &mut heap).unwrap(), s("ab-12"));
    assert_eq!(s("ab").add(Value::Nil(()), &mut heap).unwrap(), s("abnil"));
    assert_eq!(s("ab").mul(Value::Int(3)).unwrap(), s("ababab"));
    assert_eq!(s("ab").mul(Value::Int(0)).unwrap(), s(""));
}

#[test]
fn lists_index_and_insert() {
    let mut heap = Heap::new();
    let list = Value::from_slice(&[Value::Int(10), Value::Int(20), Value::Int(30)], &mut heap);
    assert_eq!(list.clone().index(Value::Int(1), &heap).unwrap(), Value::Int(20));
    list.clone().insert(Value::Int(1), Value::Int(99), &mut heap).unwrap();
    assert_eq!(list.clone().index(Value::Int(1), &heap).unwrap(), Value::Int(99));
    assert_eq!(list.to_string(&heap), "[10, 99, 30]");
    assert!(matches!(list.clone().index(Value::Int(-1), &heap), Err(Error::NegativeIndex)));
    assert!(matches!(list.clone().index(Value::Int(3), &heap), Err(Error::IndexOutOfBounds)));
    assert!(matches!(
        list.clone().insert(Value::Int(3), Value::Nil(()), &mut heap),
        Err(Error::IndexOutOfBounds)
    ));
    assert!(matches!(
        list.clone().insert(Value::Int(-3), Value::Nil(()), &mut heap),
        Err(Error::NegativeIndex)
    ));
    match Value::Int(1).index(Value::Int(0), &heap) {
        Err(e) => assert_eq!(e.to_string(), "expected List|Record, found Int"),
        _ => panic!("expected a type mismatch"),
    }
}

#[test]
fn lists_add() {
    let mut heap = Heap::new();
    let a = Value::from_slice(&[Value::Int(1)], &mut heap);
    let b = Value::from_slice(&[Value::Int(2), Value::Int(3)], &mut heap);
    let both = a.clone().add(b, &mut heap).unwrap();
    assert_eq!(both.to_string(&heap), "[1, 2, 3]");
    assert_ne!(both, a);
    let one = a.clone().add(Value::Int(7), &mut heap).unwrap();
    assert_eq!(one.to_string(&heap), "[7]");
    assert_eq!(a.to_string(&heap), "[1]");
}

#[test]
fn records_insert_and_index() {
    let mut heap = Heap::new();
    let rec = Value::Record(heap.alloc_record());
    rec.clone().insert(Value::Ident(ident("a")), Value::Int(1), &mut heap).unwrap();
    rec.clone().insert(Value::Ident(ident("b")), s("two"), &mut heap).unwrap();
    rec.clone().insert(Value::Ident(ident("a")), Value::Int(3), &mut heap).unwrap();
    assert_eq!(rec.clone().index(Value::Ident(ident("a")), &heap).unwrap(), Value::Int(3));
    assert_eq!(rec.to_string(&heap), "{ a: 3, b: two }");
    assert!(matches!(
        rec.clone().index(Value::Ident(ident("c")), &heap),
        Err(Error::IndexOutOfBounds)
    ));
    match rec.clone().index(Value::Int(0), &heap) {
        Err(e) => assert_eq!(e.to_string(), "expected Ident, found Int"),
        _ => panic!("expected a type mismatch"),
    }
}

#[test]
fn a_list_that_holds_itself_is_rendered_to_a_depth() {
    let mut heap = Heap::new();
    let list = Value::from_slice(&[Value::Int(1)], &mut heap);
    list.clone().insert(Value::Int(0), list.clone(), &mut heap).unwrap();
    assert_eq!(list.to_string(&heap), "[[...]]");
}

#[test]
fn equality_of_values() {
    let mut heap = Heap::new();
    let a = Value::from_slice(&[Value::Int(1)], &mut heap);
    let b = Value::from_slice(&[Value::Int(1)], &mut heap);
    assert_eq!(a, a.clone());
    assert_ne!(a, b);
    assert_eq!(s("x"), s("x"));
    assert_ne!(s("x"), Value::Ident(ident("x")));
    assert_ne!(Value::Int(0), Value::Nil(()));
}

#[test]
fn errors_render() {
    assert_eq!(Error::StackUnderflow.to_string(), "stack underflow");
    assert_eq!(Error::PcOutOfBounds { pc: 12 }.to_string(), "program counter 12 out of bounds");
    assert_eq!(Error::LocalVarOutOfBounds { index: 0 }.to_string(), "local var 0 out of bounds");
    assert_eq!(Error::NoSuchGroup { num: 255 }.to_string(), "no such group $255");
    assert_eq!(Error::UnimplementedToken { ch: '\n' }.to_string(), "token cannot start with '\\n'");
    assert_eq!(
        Error::VariableUndefined.decorate("sub foo".to_string()).to_string(),
        "in sub foo: variable not defined"
    );
    assert_eq!(
        Error::WithPosition { cause: Box::new(Error::Eof), line: 3, column: 14 }.to_string(),
        "line 3, column 14: unexpected end of file"
    );
}

use canary::ast::parse_module;
use canary::eval::Interpreter;
use canary::ident::{Ident, Strings};
use canary::opcode::{Argc, Binop, Func, InterpretedFn, Module, NativeFn, Op};
use canary::token::Tokenizer;
use canary::value::{Record, Value};
use canary::Error;

fn begin(code: Vec<Op>) -> Result<Interpreter, Error> {
    let mut module = Module::stdlib()?;
    module.begin = InterpretedFn::from_vec(code);
    module.start()
}

fn run(source: &str) -> Result<Value, Error> {
    let module = parse_module(Tokenizer::new(source).spanned())?;
    let mut interp = module.translate()?.start()?;
    interp.exec("main", &[])
}

fn ident(name: &str) -> Ident {
    Strings::new().intern(name).unwrap()
}

#[test]
fn begin_leaves_its_values_on_the_stack() {
    let mut interp = begin(vec![Op::PUSHI { value: 1 }, Op::PUSHI { value: 2 }, Op::DUP]).unwrap();
    assert_eq!(interp.machine.frame.locals, vec![Value::Int(1), Value::Int(2), Value::Int(2)]);
    assert_eq!(interp.pop::<i32>().unwrap(), 2);
    interp.push(Value::Nil(()));
    assert!(matches!(interp.pop::<i32>(), Err(Error::TypeMismatch { expected: "Int", found: "Nil" })));
    assert!(matches!(interp.step(), Err(Error::PcOutOfBounds { pc: 3 })));
}

#[test]
fn popping_an_empty_stack_underflows() {
    match begin(vec![Op::DROP]) {
        Err(Error::StackUnderflow) => {}
        other => panic!("unexpected outcome {:?}", other.map(|_| ())),
    }
}

#[test]
fn return_without_a_caller_underflows() {
    match begin(vec![Op::NIL, Op::RET]) {
        Err(Error::StackUnderflow) => {}
        other => panic!("unexpected outcome {:?}", other.map(|_| ())),
    }
}

#[test]
fn popping_a_local_is_refused() {
    match begin(vec![Op::NIL, Op::MARK { len: 1 }, Op::DROP]) {
        Err(Error::PoppedLocalVar) => {}
        other => panic!("unexpected outcome {:?}", other.map(|_| ())),
    }
    match begin(vec![Op::NIL, Op::MARK { len: 1 }, Op::NIL, Op::LIST { len: 2 }]) {
        Err(Error::PoppedLocalVar) => {}
        other => panic!("unexpected outcome {:?}", other.map(|_| ())),
    }
}

#[test]
fn a_list_longer_than_the_stack_is_refused() {
    match begin(vec![Op::NIL, Op::LIST { len: 2 }]) {
        Err(Error::ListTooLong) => {}
        other => panic!("unexpected outcome {:?}", other.map(|_| ())),
    }
}

#[test]
fn a_mark_above_the_stack_is_refused() {
    match begin(vec![Op::NIL, Op::MARK { len: 2 }]) {
        Err(Error::MarkTooHigh) => {}
        other => panic!("unexpected outcome {:?}", other.map(|_| ())),
    }
}

#[test]
fn mark_truncates_the_operand_stack() {
    let interp = begin(vec![
        Op::PUSHI { value: 1 },
        Op::MARK { len: 1 },
        Op::PUSHI { value: 2 },
        Op::PUSHI { value: 3 },
        Op::MARK { len: 1 },
    ])
    .unwrap();
    assert_eq!(interp.machine.frame.locals, vec![Value::Int(1)]);
    assert_eq!(interp.machine.frame.mark, 1);
}

#[test]
fn a_released_local_is_out_of_bounds() {
    match begin(vec![
        Op::PUSHI { value: 1 },
        Op::MARK { len: 1 },
        Op::MARK { len: 0 },
        Op::LOAD { src: 0 },
    ]) {
        Err(Error::LocalVarOutOfBounds { index: 0 }) => {}
        other => panic!("unexpected outcome {:?}", other.map(|_| ())),
    }
    match begin(vec![Op::NIL, Op::STORE { dst: 0 }]) {
        Err(Error::LocalVarOutOfBounds { index: 0 }) => {}
        other => panic!("unexpected outcome {:?}", other.map(|_| ())),
    }
}

#[test]
fn jumps_go_where_they_say() {
    let interp = begin(vec![
        Op::PUSHI { value: 0 },
        Op::JNZ { dst: 4 },
        Op::PUSHI { value: 7 },
        Op::JUMP { dst: 5 },
        Op::PUSHI { value: 8 },
        Op::NOT,
    ])
    .unwrap();
    assert_eq!(interp.machine.frame.locals, vec![Value::Int(0)]);
    assert_eq!(interp.machine.frame.pc, 6);
}

#[test]
fn records_are_built_and_read() {
    let interp = begin(vec![
        Op::PUSHI { value: 5 },
        Op::PUSHN { name: ident("k") },
        Op::REC,
        Op::DUP,
        Op::MARK { len: 0 },
        Op::REC,
        Op::MARK { len: 1 },
        Op::PUSHI { value: 5 },
        Op::PUSHN { name: ident("k") },
        Op::LOAD { src: 0 },
        Op::INS,
        Op::LOAD { src: 0 },
        Op::PUSHN { name: ident("k") },
        Op::BINOP { op: Binop::IDX },
    ])
    .unwrap();
    assert_eq!(interp.machine.frame.locals.last(), Some(&Value::Int(5)));
    assert_eq!(interp.machine.frame.locals[0], Value::Record(Record { index: 2 }));
}

#[test]
fn an_unknown_function_is_no_such_label() {
    let mut interp = begin(vec![]).unwrap();
    assert!(matches!(interp.exec("nothing", &[]), Err(Error::NoSuchLabel)));
    assert!(matches!(interp.exec("no thing", &[]), Err(Error::InvalidIdent { .. })));
}

#[test]
fn host_functions() {
    assert_eq!(run("sub main() { return len([1, 2, 3]); }").unwrap(), Value::Int(3));
    assert_eq!(run(r#"sub main() { return str(1, "a", :b, ()); }"#).unwrap(), Value::Str("1abnil".into()));
    assert!(matches!(run("sub main() { return new(); }").unwrap(), Value::Record(_)));
    assert!(matches!(
        run(r#"sub main() { return split("a b"); }"#),
        Err(Error::UnimplementedFeature { feature: "pattern matching" })
    ));
    assert!(matches!(run("sub main() { return len(1); }"), Err(Error::TypeMismatch { .. })));
    assert!(matches!(run("sub main() { return len(); }"), Err(Error::WrongArgc { .. })));
    match run("sub main() { assert_eq(1, 2); }") {
        Err(Error::Assert { expr }) => assert_eq!(expr, "1 eq 2"),
        other => panic!("unexpected outcome {:?}", other),
    }
    assert_eq!(run("sub main() { return assert_eq([1][0], 1); }").unwrap(), Value::Nil(()));
    let mut interp = begin(vec![]).unwrap();
    assert_eq!(interp.exec("assert", &[Value::Int(3)]).unwrap(), Value::Nil(()));
    match interp.exec("assert", &[Value::Str(String::new())]) {
        Err(Error::Assert { expr }) => assert_eq!(expr, ""),
        other => panic!("unexpected outcome {:?}", other),
    }
}

#[test]
fn a_host_function_is_registered_and_called() {
    let mut module = Module::empty();
    module.def_native("count", Argc::Exactly(1), NativeFn::Len).unwrap();
    assert!(matches!(module.functions[0].2, Func::Native(NativeFn::Len)));
    assert!(matches!(module.def_native("not a name", Argc::AtLeast(0), NativeFn::New), Err(Error::InvalidIdent { .. })));
    let args = [Value::Int(1)];
    assert!(module.call(ident("count"), &args).is_ok());
    assert!(matches!(module.call(ident("count"), &[]), Err(Error::WrongArgc { .. })));
    assert!(matches!(module.call(ident("other"), &args), Err(Error::NoSuchLabel)));
}

#[test]
fn assembler_errors() {
    assert!(matches!(
        run("sub main() { 1 = 2; }"),
        Err(Error::WithContext { cause, .. }) if matches!(*cause, Error::IllegalLvalue)
    ));
    assert!(matches!(
        run("sub main() { my $a; my $a; }"),
        Err(Error::WithContext { cause, .. }) if matches!(*cause, Error::VariableRenamed)
    ));
    assert!(matches!(
        run("sub main() { my $a; if 1 { my $a = 2; return $a; } }").unwrap(),
        Value::Int(2)
    ));
    assert!(matches!(run("BEGIN { $a = 1; }"), Err(Error::VariableUndefined)));
}

#[test]
fn a_pattern_with_an_unset_global_is_refused() {
    assert!(matches!(
        run(r#"sub main() { return "a" =~ re/%missing/; }"#),
        Err(Error::NoSuchGlobal)
    ));
    let source = r#"BEGIN { %word = "b+"; } sub main() { return "ab+c" =~ re/a%word/; }"#;
    assert_eq!(run(source).unwrap(), Value::Int(1));
}

#[test]
fn the_assembled_code_of_a_function() {
    let module = parse_module(Tokenizer::new("sub f($a) { my $b = $a or 2; }").spanned())
        .unwrap()
        .translate()
        .unwrap();
    let code = module
        .functions
        .iter()
        .find_map(|f| match (&f.2, f.0.as_str()) {
            (Func::Interpreted(code), "f") => Some(code),
            _ => None,
        })
        .unwrap();
    let shown: Vec<String> = code.0.iter().map(|op| format!("{:?}", op)).collect();
    assert_eq!(
        shown,
        vec![
            "LOAD { src: 0 }",
            "DUP",
            "JNZ { dst: 5 }",
            "DROP",
            "PUSHI { value: 2 }",
            "MARK { len: 2 }",
            "NIL",
            "RET",
        ]
    );
}

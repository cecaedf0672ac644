use canary::eval::{Code, Interpreter};
use canary::ident::{Ident, Strings};
use canary::opcode::{Binop, InterpretedFn, Module, Op};
use canary::pattern::compile::specialize;
use canary::pattern::parse::{Ast, Branch, Group, Leaf};
use canary::pattern::Var;
use canary::token::Tokenizer;
use canary::value::Value;
use canary::Error;

fn launch(code: Vec<Op>) -> (Interpreter, Result<(), Error>) {
    let mut module = Module::stdlib().unwrap();
    module.begin = InterpretedFn::from_vec(code);
    module.launch()
}

fn ident(name: &str) -> Ident {
    Strings::new().intern(name).unwrap()
}

#[test]
fn a_failing_load_pushes_nothing() {
    let (interp, r) = launch(vec![Op::PUSHI { value: 1 }, Op::LOAD { src: 0 }]);
    assert!(matches!(r, Err(Error::LocalVarOutOfBounds { index: 0 })));
    assert_eq!(interp.machine.frame.locals, vec![Value::Int(1)]);
    assert_eq!(interp.machine.frame.mark, 0);
    assert_eq!(interp.machine.frame.pc, 2);
}

#[test]
fn a_failing_store_has_taken_its_value() {
    let (interp, r) = launch(vec![Op::NIL, Op::PUSHI { value: 1 }, Op::STORE { dst: 3 }]);
    assert!(matches!(r, Err(Error::LocalVarOutOfBounds { index: 3 })));
    assert_eq!(interp.machine.frame.locals, vec![Value::Nil(())]);
    assert_eq!(interp.machine.frame.pc, 3);
}

#[test]
fn a_mark_above_the_locals_changes_nothing() {
    let (interp, r) = launch(vec![Op::NIL, Op::MARK { len: 1 }, Op::NIL, Op::MARK { len: 3 }]);
    assert!(matches!(r, Err(Error::MarkTooHigh)));
    assert_eq!(interp.machine.frame.locals, vec![Value::Nil(()), Value::Nil(())]);
    assert_eq!(interp.machine.frame.mark, 1);
    assert_eq!(interp.machine.frame.pc, 4);
}

#[test]
fn a_return_without_a_caller_keeps_the_frame() {
    let (interp, r) = launch(vec![Op::PUSHI { value: 7 }, Op::RET]);
    assert!(matches!(r, Err(Error::StackUnderflow)));
    assert_eq!(interp.machine.frame.code, Code::Begin);
    assert_eq!(interp.machine.frame.locals, vec![Value::Int(7)]);
    assert_eq!(interp.machine.frame.pc, 2);
    assert!(interp.machine.saved.is_empty());
}

#[test]
fn an_absent_group_leaves_the_locals() {
    let (interp, r) = launch(vec![Op::NIL, Op::GROUP { num: 1 }]);
    assert!(matches!(r, Err(Error::NoSuchGroup { num: 1 })));
    assert_eq!(interp.machine.frame.locals, vec![Value::Nil(())]);
    assert_eq!(interp.machine.frame.pc, 2);
}

#[test]
fn a_failing_operator_has_taken_its_operands() {
    let (interp, r) = launch(vec![
        Op::PUSHI { value: 5 },
        Op::PUSHI { value: 1 },
        Op::NIL,
        Op::BINOP { op: Binop::SUB },
    ]);
    assert!(matches!(r, Err(Error::TypeMismatch { .. })));
    assert_eq!(interp.machine.frame.locals, vec![Value::Int(5)]);
    assert_eq!(interp.machine.frame.pc, 4);
    let (interp, r) = launch(vec![Op::PUSHI { value: 5 }, Op::BINOP { op: Binop::SUB }]);
    assert!(matches!(r, Err(Error::StackUnderflow)));
    assert!(interp.machine.frame.locals.is_empty());
}

#[test]
fn a_step_past_the_body_changes_nothing() {
    let (mut interp, r) = launch(vec![Op::NIL]);
    assert!(r.is_ok());
    assert!(matches!(interp.step(), Err(Error::PcOutOfBounds { pc: 1 })));
    assert_eq!(interp.machine.frame.pc, 1);
    assert_eq!(interp.machine.frame.locals, vec![Value::Nil(())]);
}

#[test]
fn what_begin_printed_outlives_its_failure() {
    let source = r#"BEGIN { print("one", 2); 1 / 0; print("never"); }"#;
    let module = canary::ast::parse_module(Tokenizer::new(source).spanned()).unwrap();
    let (interp, r) = module.translate().unwrap().launch();
    assert!(matches!(r, Err(Error::DividedByZero)));
    assert_eq!(interp.machine.output, vec!["one 2".to_string()]);
}

#[test]
fn a_bad_global_name_changes_nothing() {
    let (mut interp, r) = launch(vec![]);
    assert!(r.is_ok());
    match interp.set_global("1x", Value::Int(1)) {
        Err(Error::InvalidIdent { input }) => assert_eq!(input.as_str(), "1x"),
        other => panic!("unexpected outcome {:?}", other),
    }
    assert_eq!(interp.machine.heap.records.len(), 1);
    assert!(interp.machine.heap.records[0].is_empty());
    interp.set_global("x", Value::Int(1)).unwrap();
    interp.set_global("y", Value::Int(2)).unwrap();
    interp.set_global("x", Value::Int(3)).unwrap();
    let globals = &interp.machine.heap.records[interp.machine.globals.index];
    assert_eq!(globals.len(), 2);
    assert_eq!(globals[0].0.as_str(), "x");
    assert_eq!(globals[0].1, Value::Int(3));
    assert_eq!(globals[1].1, Value::Int(2));
    match interp.exec("no name", &[]) {
        Err(Error::InvalidIdent { input }) => assert_eq!(input.as_str(), "no name"),
        other => panic!("unexpected outcome {:?}", other),
    }
}

fn pattern_of(leaves: Vec<Leaf<Var<usize>>>) -> Ast<Var<usize>> {
    Ast { root: Group { number: 0, branches: vec![Branch { leaves }] }, ignore_case: false }
}

#[test]
fn the_first_variable_without_a_text_gives_the_error() {
    let (interp, r) = launch(vec![]);
    assert!(r.is_ok());
    let global = || Leaf::Payload(Var::Global { name: ident("missing") });
    let local = || Leaf::Payload(Var::Local { name: 4 });
    let first = pattern_of(vec![global(), Leaf::Raw("-".to_string()), local()]);
    assert!(matches!(specialize(&first, &interp.machine), Err(Error::NoSuchGlobal)));
    let second = pattern_of(vec![local(), global()]);
    assert!(matches!(
        specialize(&second, &interp.machine),
        Err(Error::LocalVarOutOfBounds { index: 4 })
    ));
    let nested = pattern_of(vec![
        Leaf::Repeat {
            prefix: Box::new(Leaf::Group(Group { number: 1, branches: vec![Branch { leaves: vec![local()] }] })),
            times: canary::pattern::parse::Repeat::OneOrMore,
            suffix: Branch { leaves: vec![global()] },
        },
    ]);
    assert!(matches!(
        specialize(&nested, &interp.machine),
        Err(Error::LocalVarOutOfBounds { index: 4 })
    ));
}

fn host(id: usize, argv: Vec<Value>) -> Value {
    match (id, argv.as_slice()) {
        (7, [Value::Int(a), Value::Int(b)]) => Value::Int(a * 10 + b),
        (8, []) => Value::Str("host".to_string()),
        other => panic!("unexpected call {:?}", other),
    }
}

fn run_with_host(interp: &mut Interpreter, func: &str, args: &[Value]) -> Result<Value, Error> {
    let mut outcome = interp.exec(func, args);
    loop {
        outcome = match outcome {
            Err(Error::HostCall { id, argv }) => interp.resume(host(id, argv)),
            other => return other,
        };
    }
}

#[test]
fn the_host_runs_its_own_functions() {
    let source = r#"sub main($a) { my $b = glue($a, 2) + 1; return who() + glue($b, $a); }"#;
    let parsed = canary::ast::parse_module(Tokenizer::new(source).spanned()).unwrap();
    let mut module = parsed.translate().unwrap();
    module.def_native("glue", canary::opcode::Argc::Exactly(2), canary::opcode::NativeFn::Host(7)).unwrap();
    module.def_native("who", canary::opcode::Argc::Exactly(0), canary::opcode::NativeFn::Host(8)).unwrap();
    let mut interp = module.start().unwrap();
    match interp.exec("main", &[Value::Int(4)]) {
        Err(Error::HostCall { id: 7, argv }) => {
            assert_eq!(argv, vec![Value::Int(4), Value::Int(2)]);
            assert_eq!(interp.machine.saved.len(), 1);
        }
        other => panic!("unexpected outcome {:?}", other),
    }
    let mut interp = {
        let parsed = canary::ast::parse_module(Tokenizer::new(source).spanned()).unwrap();
        let mut module = parsed.translate().unwrap();
        module.def_native("glue", canary::opcode::Argc::Exactly(2), canary::opcode::NativeFn::Host(7)).unwrap();
        module.def_native("who", canary::opcode::Argc::Exactly(0), canary::opcode::NativeFn::Host(8)).unwrap();
        module.start().unwrap()
    };
    let value = run_with_host(&mut interp, "main", &[Value::Int(4)]).unwrap();
    assert_eq!(value, Value::Str("host434".to_string()));
    assert_eq!(run_with_host(&mut interp, "glue", &[Value::Int(1), Value::Int(2)]).unwrap(), Value::Int(12));
    assert_eq!(Error::HostCall { id: 7, argv: vec![] }.to_string(), "call of host function 7");
}

use canary::ast::{Args, Binop, Def, Expr, Literal, Module, Stmt};
use canary::eval::Interpreter;
use canary::ident::{Ident, Strings};
use canary::opcode::{Argc, InterpretedFn, Op};
use canary::pattern::parse::Ast;
use canary::token::Tokenizer;
use canary::value::Value;
use canary::Error;

fn ident(name: &str) -> Ident {
    Strings::new().intern(name).unwrap()
}

fn local(name: &str) -> Expr {
    Expr::Local(ident(name))
}

fn num(i: i32) -> Expr {
    Expr::Literal(Literal::Int(i))
}

fn text(s: &str) -> Expr {
    Expr::Literal(Literal::Str(s.to_string()))
}

fn pattern(source: &str) -> Expr {
    let mut stream = Tokenizer::new(source);
    Expr::Literal(Literal::Pattern(Ast::parse(&mut stream).unwrap()))
}

fn my(name: &str, rhs: Expr) -> Stmt {
    Stmt::My { lhs: ident(name), rhs: Some(rhs) }
}

fn check(rhs: Expr) -> Stmt {
    Stmt::Assert { rhs }
}

fn main_of(body: Vec<Stmt>) -> Module {
    Module {
        begin: vec![],
        defs: vec![Def { name: ident("main"), args: Args(vec![]), body }],
    }
}

fn run(module: Module) -> Result<Value, Error> {
    let mut interp: Interpreter = module.translate()?.start()?;
    interp.exec("main", &[])
}

#[test]
fn translation() {
    let mut strings = Strings::new();
    let x: Ident = strings.intern("x").unwrap();
    let hello = strings.intern("hello").unwrap();
    let world = strings.intern("world").unwrap();
    let print = strings.intern("print").unwrap();

    let src = Def {
        name: hello,
        args: Args(vec![]),
        body: vec![
            Stmt::My { lhs: x.clone(), rhs: None },
            Stmt::Assign {
                lhs: Expr::Local(x.clone()),
                rhs: Expr::Literal(Literal::Str(world)),
            },
            Stmt::Bare {
                rhs: Expr::Call {
                    name: print,
                    args: vec![Expr::Local(x.clone())],
                },
            },
        ],
    };

    let module = Module {
        begin: vec![],
        defs: vec![src],
    };

    module.translate().unwrap();
}

#[test]
fn use_value() {
    assert_eq!(Value::Int(1), Value::Int(1));
}

#[test]
fn sum_of_two_locals() {
    let module = main_of(vec![
        my("x", num(2)),
        my("y", num(3)),
        check(Binop::Equal.apply(Binop::Add.apply(local("x"), local("y")), num(5))),
    ]);
    assert_eq!(run(module).unwrap(), Value::Nil(()));
}

#[test]
fn failing_assertion_names_its_expression() {
    let module = main_of(vec![
        my("x", num(2)),
        check(Binop::Equal.apply(local("x"), num(5))),
    ]);
    match run(module) {
        Err(Error::Assert { expr }) => assert_eq!(expr, "$x eq 5"),
        other => panic!("unexpected outcome {:?}", other),
    }
}

#[test]
fn list_mutation_is_seen_through_the_same_list() {
    let xs = || local("xs");
    let module = main_of(vec![
        my("xs", Expr::List(vec![num(10), num(20), num(30)])),
        my("ys", xs()),
        Stmt::Assign { lhs: Binop::Idx.apply(xs(), num(1)), rhs: num(99) },
        check(Binop::Equal.apply(Binop::Idx.apply(xs(), num(1)), num(99))),
        check(Binop::Equal.apply(Binop::Idx.apply(local("ys"), num(1)), num(99))),
        check(Binop::Equal.apply(Binop::Idx.apply(xs(), num(0)), num(10))),
    ]);
    assert_eq!(run(module).unwrap(), Value::Nil(()));
}

#[test]
fn match_populates_groups() {
    let module = main_of(vec![
        my("s", text("hello world")),
        check(Binop::Match.apply(local("s"), pattern("/(\\w+) (\\w+)/"))),
        check(Binop::Equal.apply(Expr::Group(1), text("hello"))),
        check(Binop::Equal.apply(Expr::Group(2), text("world"))),
    ]);
    assert_eq!(run(module).unwrap(), Value::Nil(()));
}

#[test]
fn greedy_backtrack_in_the_language() {
    let module = main_of(vec![
        check(Binop::Match.apply(text("aaab"), pattern("/(a+)b/"))),
        check(Binop::Equal.apply(Expr::Group(1), text("aaa"))),
    ]);
    assert_eq!(run(module).unwrap(), Value::Nil(()));
}

#[test]
fn alternation_order_in_the_language() {
    let module = main_of(vec![
        check(Binop::Match.apply(text("foo"), pattern("/(foo|foobar)/"))),
        check(Binop::Equal.apply(Expr::Group(1), text("foo"))),
    ]);
    assert_eq!(run(module).unwrap(), Value::Nil(()));
}

#[test]
fn case_folding_in_the_language() {
    let module = main_of(vec![
        check(Binop::Match.apply(text("CASE"), pattern("/case/i"))),
        check(Expr::Not(Box::new(Binop::Match.apply(text("CASE"), pattern("/case/"))))),
    ]);
    assert_eq!(run(module).unwrap(), Value::Nil(()));
}

#[test]
fn failed_match_clears_the_groups() {
    let module = main_of(vec![
        check(Binop::Match.apply(text("ab"), pattern("/(a)/"))),
        Stmt::Bare { rhs: Binop::Match.apply(text("ab"), pattern("/(x)/")) },
        Stmt::Return { rhs: Some(Expr::Group(1)) },
    ]);
    match run(module) {
        Err(Error::NoSuchGroup { num }) => assert_eq!(num, 1),
        other => panic!("unexpected outcome {:?}", other),
    }
}

#[test]
fn pattern_variables_are_bound_when_the_pattern_is_evaluated() {
    let module = main_of(vec![
        my("word", text("b+")),
        my("p", pattern("/a$word/")),
        Stmt::Assign { lhs: local("word"), rhs: text("c") },
        check(Binop::Match.apply(text("xab+c"), local("p"))),
        check(Expr::Not(Box::new(Binop::Match.apply(text("xac"), local("p"))))),
    ]);
    assert_eq!(run(module).unwrap(), Value::Nil(()));
}

#[test]
fn wrong_arity_names_the_function() {
    let two = Def {
        name: ident("two"),
        args: Args(vec![ident("a"), ident("b")]),
        body: vec![],
    };
    let main = Def {
        name: ident("main"),
        args: Args(vec![]),
        body: vec![Stmt::Bare {
            rhs: Expr::Call { name: ident("two"), args: vec![num(1)] },
        }],
    };
    let module = Module { begin: vec![], defs: vec![two, main] };
    match run(module) {
        Err(Error::WrongArgc { func, expected, found }) => {
            assert_eq!(func.as_str(), "two");
            assert_eq!(expected, Argc::Exactly(2));
            assert_eq!(found, 1);
        }
        other => panic!("unexpected outcome {:?}", other),
    }
}

#[test]
fn wrong_arity_renders_with_the_name() {
    let e = Error::WrongArgc { func: ident("two"), expected: Argc::Exactly(2), found: 1 };
    assert_eq!(e.to_string(), "two was called with exactly 2 arguments, wanted 1");
}

#[test]
fn locals_of_a_while_body_are_released() {
    // my $go = 1; while $go { my $z = 7; $go = 0; }  -- then the slot of $z is read
    let mut module = main_of(vec![
        my("go", num(1)),
        Stmt::While {
            test: local("go"),
            body: vec![my("z", num(7)), Stmt::Assign { lhs: local("go"), rhs: num(0) }],
        },
    ])
    .translate()
    .unwrap();
    let at = module.functions.iter().position(|f| f.0.as_str() == "main").unwrap();
    let body = match &mut module.functions[at].2 {
        canary::opcode::Func::Interpreted(InterpretedFn(code)) => code,
        _ => panic!("main is interpreted"),
    };
    // drop the implicit `return nil` and read slot 1, where $z lived
    body.pop();
    body.pop();
    body.push(Op::LOAD { src: 1 });
    body.push(Op::RET);
    let mut interp = module.start().unwrap();
    match interp.exec("main", &[]) {
        Err(Error::LocalVarOutOfBounds { index }) => assert_eq!(index, 1),
        other => panic!("unexpected outcome {:?}", other),
    }
}

#[test]
fn a_local_of_a_block_is_unknown_after_the_block() {
    let module = main_of(vec![
        Stmt::While { test: num(0), body: vec![my("z", num(7))] },
        Stmt::Return { rhs: Some(local("z")) },
    ]);
    match module.translate() {
        Err(Error::WithContext { context, cause }) => {
            assert_eq!(context, "sub main");
            assert!(matches!(*cause, Error::VariableUndefined));
        }
        Err(other) => panic!("unexpected error {}", other.to_string()),
        Ok(_) => panic!("the module should not assemble"),
    }
}

#[test]
fn or_and_and_give_the_last_operand() {
    let nil = || Expr::Literal(Literal::Nil);
    let module = main_of(vec![
        check(Binop::Equal.apply(
            Expr::Or { lhs: Box::new(nil()), rhs: Box::new(num(7)) },
            num(7),
        )),
        check(Binop::Equal.apply(
            Expr::Or { lhs: Box::new(num(3)), rhs: Box::new(num(7)) },
            num(3),
        )),
        check(Binop::Equal.apply(
            Expr::And { lhs: Box::new(num(3)), rhs: Box::new(num(7)) },
            num(7),
        )),
        check(Binop::Equal.apply(
            Expr::And { lhs: Box::new(num(0)), rhs: Box::new(num(7)) },
            num(0),
        )),
    ]);
    assert_eq!(run(module).unwrap(), Value::Nil(()));
}

#[test]
fn if_takes_the_first_clause_that_holds() {
    let module = main_of(vec![
        my("r", num(0)),
        Stmt::If {
            clauses: vec![
                (num(0), vec![Stmt::Assign { lhs: local("r"), rhs: num(1) }]),
                (num(5), vec![Stmt::Assign { lhs: local("r"), rhs: num(2) }]),
                (num(6), vec![Stmt::Assign { lhs: local("r"), rhs: num(3) }]),
            ],
            last: vec![Stmt::Assign { lhs: local("r"), rhs: num(4) }],
        },
        Stmt::Return { rhs: Some(local("r")) },
    ]);
    assert_eq!(run(module).unwrap(), Value::Int(2));
}

#[test]
fn while_counts_down() {
    let module = main_of(vec![
        my("n", num(5)),
        my("sum", num(0)),
        Stmt::While {
            test: local("n"),
            body: vec![
                Stmt::Assign { lhs: local("sum"), rhs: Binop::Add.apply(local("sum"), local("n")) },
                Stmt::Assign { lhs: local("n"), rhs: Binop::Sub.apply(local("n"), num(1)) },
            ],
        },
        Stmt::Return { rhs: Some(local("sum")) },
    ]);
    assert_eq!(run(module).unwrap(), Value::Int(15));
}

#[test]
fn a_run_without_end_runs_out_of_steps() {
    let module = main_of(vec![Stmt::While { test: num(1), body: vec![] }]);
    let mut interp = module.translate().unwrap().start().unwrap();
    interp.limit = 1000;
    assert!(matches!(interp.exec("main", &[]), Err(Error::OutOfSteps)));
}

#[test]
fn globals_are_set_and_read() {
    let module = main_of(vec![Stmt::Return {
        rhs: Some(Binop::Add.apply(Expr::Global(ident("X")), num(1))),
    }]);
    let mut interp = module.translate().unwrap().start().unwrap();
    interp.set_global("X", Value::Int(41)).unwrap();
    assert_eq!(interp.exec("main", &[]).unwrap(), Value::Int(42));
}

#[test]
fn print_writes_a_line() {
    let module = main_of(vec![Stmt::Bare {
        rhs: Expr::Call { name: ident("print"), args: vec![text("a"), num(1)] },
    }]);
    let mut interp = module.translate().unwrap().start().unwrap();
    interp.exec("main", &[]).unwrap();
    assert_eq!(interp.machine.output, vec!["a 1".to_string()]);
}

#[test]
fn assembling_twice_gives_the_same_code() {
    let make = || {
        main_of(vec![
            my("x", num(2)),
            Stmt::If {
                clauses: vec![(local("x"), vec![my("y", num(3))])],
                last: vec![],
            },
        ])
        .translate()
        .unwrap()
    };
    let (a, b) = (make(), make());
    assert_eq!(format!("{:?}", a.functions), format!("{:?}", b.functions));
    assert_eq!(format!("{:?}", a.begin), format!("{:?}", b.begin));
}

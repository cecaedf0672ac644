use canary::ast::{parse_block_body, parse_def, parse_module, Binop, Expr, Literal, Module, Stmt};
use canary::eval::Interpreter;
use canary::token::Tokenizer;
use canary::value::Value;
use canary::Error;

#[test]
fn mod_syntax() {
    let src = &[
        "sub assign() { $x = $y; }",
        "sub simple_if() { if 0 { } }",
        "sub if_else() { if 1 { 1; } else if 2 { 2; } else { 3; } }",
        "sub while_loop() { while 1 { } }",
        "sub globals() { %X = %Y; }",
        "sub symbols() { my $a = :b; :c + :d; }",
    ];

    for src in src {
        parse_def(Tokenizer::new(src).spanned()).unwrap_or_else(|err| {
            println!("ERROR: {}", err.to_string());
            let tokens: Vec<_> = Tokenizer::new(src).tokens().unwrap();

            println!("Tokens: {:?}", tokens);

            panic!("Test failed");
        });
    }
}

fn parse(source: &str) -> Module {
    parse_module(Tokenizer::new(source).spanned()).unwrap_or_else(|err| {
        panic!("{:?} does not parse: {}", source, err.to_string());
    })
}

fn run(source: &str) -> Result<Value, Error> {
    let mut interp: Interpreter = parse(source).translate()?.start()?;
    interp.exec("main", &[])
}

#[test]
fn scenario_sum() {
    run("sub main() { my $x = 2; my $y = 3; assert $x + $y eq 5; }").unwrap();
}

#[test]
fn scenario_list_mutation() {
    run("sub main() { my $xs = [10,20,30]; $xs[1] = 99; assert $xs[1] eq 99; }").unwrap();
}

#[test]
fn scenario_groups() {
    run(r#"sub main() { my $s = "hello world"; assert $s =~ re/(\w+) (\w+)/; assert $1 eq "hello"; assert $2 eq "world"; }"#)
        .unwrap();
}

#[test]
fn scenario_greedy_backtrack() {
    run(r#"sub main() { assert "aaab" =~ re/(a+)b/; assert $1 eq "aaa"; }"#).unwrap();
}

#[test]
fn scenario_alternation_order() {
    run(r#"sub main() { assert "foo" =~ re/(foo|foobar)/; assert $1 eq "foo"; }"#).unwrap();
}

#[test]
fn scenario_case_folding() {
    run(r#"sub main() { assert "CASE" =~ re/case/i; assert not "CASE" =~ re/case/; }"#).unwrap();
}

#[test]
fn scenario_arity() {
    let r = run("sub two($a, $b) { return $a; } sub main() { two(1); }");
    match r {
        Err(Error::WrongArgc { func, found, .. }) => {
            assert_eq!(func.as_str(), "two");
            assert_eq!(found, 1);
        }
        other => panic!("unexpected outcome {:?}", other),
    }
}

#[test]
fn scenario_scope_release_at_compile_time() {
    let module = parse("sub main() { while 0 { my $z = 1; } return $z; }");
    match module.translate() {
        Err(Error::WithContext { context, cause }) => {
            assert_eq!(context, "sub main");
            assert!(matches!(*cause, Error::VariableUndefined));
        }
        Err(other) => panic!("unexpected error {}", other.to_string()),
        Ok(_) => panic!("the module should not assemble"),
    }
}

#[test]
fn or_gives_the_last_operand() {
    assert_eq!(run("sub main() { return () or 7; }").unwrap(), Value::Int(7));
    assert_eq!(run("sub main() { return 0 and 7; }").unwrap(), Value::Int(0));
}

#[test]
fn precedence_and_association() {
    assert_eq!(run("sub main() { return 2 + 3 * 4 - 10 / 5; }").unwrap(), Value::Int(12));
    assert_eq!(run("sub main() { return (2 + 3) * 4; }").unwrap(), Value::Int(20));
    assert_eq!(run("sub main() { return 10 - 4 - 3; }").unwrap(), Value::Int(3));
    assert_eq!(run("sub main() { return not 1 eq 2 and 3; }").unwrap(), Value::Int(3));
}

#[test]
fn begin_runs_before_main() {
    let source = "BEGIN { %count = 40; } sub main() { return %count + 2; } BEGIN { %count = %count + 0; }";
    assert_eq!(run(source).unwrap(), Value::Int(42));
}

#[test]
fn interpolation_and_calls() {
    let source = r#"
        sub greet($name) { return "hello $name!"; }   # a comment
        sub main() { my $who = "world"; return str(greet($who), " ", len([1, 2, 3])); }
    "#;
    assert_eq!(run(source).unwrap(), Value::Str("hello world! 3".to_string()));
}

#[test]
fn statements_parse_to_their_trees() {
    let body = parse_block_body(Tokenizer::new("my $a; $a[0] = :b; ;").spanned()).unwrap();
    assert_eq!(body.len(), 3);
    assert!(matches!(&body[0], Stmt::My { rhs: None, .. }));
    match &body[1] {
        Stmt::Assign { lhs: Expr::Binop { op: Binop::Idx, .. }, rhs: Expr::Literal(Literal::Ident(b)) } => {
            assert_eq!(b.as_str(), "b")
        }
        other => panic!("unexpected statement {:?}", other),
    }
    assert!(matches!(&body[2], Stmt::Nop));
}

#[test]
fn a_misplaced_token_gives_its_offset() {
    match parse_module(Tokenizer::new("sub main() { my 1; }").spanned()) {
        Err(Error::Syntax { at }) => assert_eq!(at, 15),
        other => panic!("unexpected outcome {:?}", other.map(|_| ())),
    }
    match parse_module(Tokenizer::new("sub main() { return 1;").spanned()) {
        Err(Error::Syntax { at }) => assert_eq!(at, 22),
        other => panic!("unexpected outcome {:?}", other.map(|_| ())),
    }
    match parse_def(Tokenizer::new("sub a() { } sub b() { }").spanned()) {
        Err(Error::Syntax { at }) => assert_eq!(at, 11),
        other => panic!("unexpected outcome {:?}", other.map(|_| ())),
    }
    assert_eq!(Error::Syntax { at: 16 }.to_string(), "syntax error at offset 16");
}

#[test]
fn a_lexer_error_carries_its_position() {
    match parse_module(Tokenizer::new("sub main() {\n  @ }").spanned()) {
        Err(Error::WithPosition { cause, line, column }) => {
            assert!(matches!(*cause, Error::UnimplementedToken { ch: '@' }));
            assert_eq!((line, column), (1, 3));
        }
        other => panic!("unexpected outcome {:?}", other.map(|_| ())),
    }
}

#[test]
fn a_nested_function_is_refused() {
    let nested = parse_module(Tokenizer::new("sub main() { sub inner() { } }").spanned());
    assert!(matches!(nested, Err(Error::NonStaticFunction)));
    let body = parse_block_body(Tokenizer::new("my $a; sub f() { }").spanned());
    assert!(matches!(body, Err(Error::NonStaticFunction)));
}

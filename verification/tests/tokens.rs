use canary::ident::Ident;
use canary::token::{Interp, Token, Tokenizer};
use canary::Error;

#[test]
fn various() {
    let sources = &[
        "$foo $1 $9 $0 $ok_what_now $UPPERCASE",
        "1 23 456 7890",
        " spaces # Comment at end\n",
    ];

    for src in sources {
        Tokenizer::new(src).tokens().unwrap_or_else(|err| {
            println!("Failed to tokenize: {}", src);
            println!("Error: {}", err.to_string());
            panic!("Test failed");
        });
    }
}

#[test]
fn token_syntax() {
    let src = "sub foo() { return $bar; }";
    let mut t = Tokenizer::new(src);
    let foo = t.intern("foo").unwrap();
    let bar = t.intern("bar").unwrap();

    let items = t.tokens().unwrap();
    assert_eq!(&items, &[
               Token::DEF,
               Token::NEARWORD(foo),
               Token::LPAR,
               Token::RPAR,
               Token::LCBR,
               Token::RETURN,
               Token::VAR(bar),
               Token::EOL,
               Token::RCBR,
    ]);
}

#[test]
fn string() {
    let strings = &[
        r#" "let's go" "#,
        r#" "okay $friend" "#,
        r#" "hello\nworld" "#,
    ];

    for string in strings {
        let t = Tokenizer::new(string);
        t.tokens().unwrap();
    }
}

#[test]
fn pattern() {
    let patterns = &[
        "re/(hello|world)/",
        "re/(hello|world)/i",
        "re/^hello[ ]world$/",
    ];

    for src in patterns {
        let tokens = Tokenizer::new(src).tokens().unwrap();

        assert_eq!(tokens.len(), 1);
    }
}

fn name(text: &str) -> Ident {
    Tokenizer::new("").intern(text).unwrap()
}

#[test]
fn numbers_and_groups() {
    let tokens = Tokenizer::new("1 23 456 7890 $1 $9").tokens().unwrap();
    assert_eq!(
        tokens,
        vec![
            Token::INT(1),
            Token::INT(23),
            Token::INT(456),
            Token::INT(7890),
            Token::GROUP(1),
            Token::GROUP(9),
        ]
    );
}

#[test]
fn a_number_beyond_32_bits_is_refused() {
    assert_eq!(Tokenizer::new("2147483647").tokens().unwrap(), vec![Token::INT(2147483647)]);
    assert!(matches!(
        Tokenizer::new("2147483648").tokens(),
        Err(Error::UnimplementedFeature { .. })
    ));
}

#[test]
fn interpolated_string_pieces() {
    let tokens = Tokenizer::new(r#""a $x b\t%Y$12!""#).tokens().unwrap();
    assert_eq!(
        tokens,
        vec![Token::STR(vec![
            Interp::S("a ".to_string()),
            Interp::V(name("x")),
            Interp::S(" b\t".to_string()),
            Interp::G(name("Y")),
            Interp::C(12),
            Interp::S("!".to_string()),
        ])]
    );
}

#[test]
fn string_errors() {
    assert!(matches!(Tokenizer::new("\"abc").tokens(), Err(Error::MalformedString)));
    assert!(matches!(Tokenizer::new("\"a\\q\"").tokens(), Err(Error::InvalidEscape)));
    assert!(matches!(Tokenizer::new("\"$999\"").tokens(), Err(Error::MalformedString)));
    assert!(matches!(Tokenizer::new("\"%1\"").tokens(), Err(Error::InvalidIdent { .. })));
}

#[test]
fn token_errors() {
    assert!(matches!(Tokenizer::new("$").tokens(), Err(Error::Eof)));
    assert!(matches!(Tokenizer::new("%").tokens(), Err(Error::Eof)));
    assert!(matches!(Tokenizer::new("$!").tokens(), Err(Error::UnimplementedToken { ch: '!' })));
    assert!(matches!(Tokenizer::new("@").tokens(), Err(Error::UnimplementedToken { ch: '@' })));
    assert!(matches!(Tokenizer::new("re/(/").tokens(), Err(Error::InvalidRegex)));
    assert!(matches!(Tokenizer::new("re/a/x").tokens(), Err(Error::InvalidRegex)));
}

#[test]
fn operators_and_words() {
    let tokens = Tokenizer::new("a =~ b(c) = :d : eq").tokens().unwrap();
    assert_eq!(
        tokens,
        vec![
            Token::FARWORD(name("a")),
            Token::MATCH,
            Token::NEARWORD(name("b")),
            Token::LPAR,
            Token::FARWORD(name("c")),
            Token::RPAR,
            Token::EQUAL,
            Token::SYM(name("d")),
            Token::COLON,
            Token::EQ,
        ]
    );
}

#[test]
fn a_comment_at_the_end_ends_the_tokens() {
    assert_eq!(Tokenizer::new("1 # no newline").tokens().unwrap(), vec![Token::INT(1)]);
    assert_eq!(Tokenizer::new("# one\n2").tokens().unwrap(), vec![Token::INT(2)]);
}

#[test]
fn spans_and_positions() {
    let mut spanned = Tokenizer::new("ab  12\n  @").spanned();
    let (left, token, right) = spanned.next().unwrap().unwrap();
    assert_eq!((left, right), (0, 2));
    assert_eq!(token, Token::FARWORD(name("ab")));
    let (left, token, right) = spanned.next().unwrap().unwrap();
    assert_eq!((left, right), (2, 6));
    assert_eq!(token, Token::INT(12));
    match spanned.next() {
        Some(Err(Error::WithPosition { cause, line, column })) => {
            assert!(matches!(*cause, Error::UnimplementedToken { ch: '@' }));
            assert_eq!((line, column), (1, 3));
        }
        other => panic!("unexpected outcome {:?}", other.map(|r| r.map(|t| t.1))),
    }
}

#[test]
fn word_reads_an_identifier() {
    let mut t = Tokenizer::new("foo_1 bar");
    assert_eq!(t.lookahead(), Some('f'));
    assert_eq!(t.word().unwrap().unwrap().as_str(), "foo_1");
    assert_eq!(t.getc(), Some(' '));
    assert_eq!(t.word().unwrap().unwrap().as_str(), "bar");
    assert!(t.word().is_none());
    assert_eq!(t.line_and_col(), Some((0, 9)));
}

#[test]
fn tokens_render_in_their_source_form() {
    let source = r#"sub f($a) { my $s = "a \"$a b\t%B$1"; return re/^(a|b)+[ce]$/i =~ :sym; }"#;
    let shown: Vec<String> = Tokenizer::new(source).tokens().unwrap().iter().map(Token::to_string).collect();
    assert_eq!(
        shown.join(" "),
        r#"sub f ( $a ) { my $s = "a \"$a b\t%B$1" ; return re/^(a|b)+[ce]$/i =~ :sym ; }"#
    );
}

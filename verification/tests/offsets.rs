use canary::ast::{parse_block_body, parse_module};
use canary::pattern::matcher::eq_folded;
use canary::text::push_int;
use canary::token::{Token, Tokenizer};
use canary::Error;

#[test]
fn the_offset_counts_bytes() {
    let mut lexer = Tokenizer::new("éa€");
    assert_eq!(lexer.offset(), 0);
    assert_eq!(lexer.getc(), Some('é'));
    assert_eq!(lexer.offset(), 2);
    assert_eq!(lexer.getc(), Some('a'));
    assert_eq!(lexer.offset(), 3);
    assert_eq!(lexer.getc(), Some('€'));
    assert_eq!(lexer.offset(), 6);
    assert_eq!(lexer.getc(), None);
    assert_eq!(lexer.offset(), 6);
}

#[test]
fn spans_are_byte_offsets_into_the_source() {
    let source = "$é = \"ü\";";
    let mut spanned = Tokenizer::new(source).spanned();
    let mut spans: Vec<(usize, usize)> = Vec::new();
    let mut tokens: Vec<Token> = Vec::new();
    while let Some(next) = spanned.next() {
        let (left, token, right) = next.unwrap();
        assert!(source.is_char_boundary(left) && source.is_char_boundary(right));
        spans.push((left, right));
        tokens.push(token);
    }
    assert_eq!(spans, vec![(0, 3), (3, 5), (5, 10), (10, 11)]);
    assert_eq!(&source[0..3], "$é");
    assert_eq!(&source[5..10], " \"ü\"");
    assert!(matches!(tokens[1], Token::EQUAL));
    assert!(matches!(tokens[3], Token::EOL));
}

#[test]
fn a_syntax_error_is_at_a_byte_offset() {
    match parse_block_body(Tokenizer::new("$é = ;").spanned()) {
        Err(Error::Syntax { at }) => assert_eq!(at, 5),
        other => panic!("unexpected outcome {:?}", other),
    }
    match parse_module(Tokenizer::new("sub é() { 1; ").spanned()) {
        Err(Error::Syntax { at }) => assert_eq!(at, 14),
        other => panic!("unexpected outcome {:?}", other.map(|_| ())),
    }
}

#[test]
fn the_line_and_the_column_count_characters() {
    let mut spanned = Tokenizer::new("$é;\n$ü ~").spanned();
    let mut last = None;
    while let Some(next) = spanned.next() {
        last = Some(next);
    }
    match last {
        Some(Err(Error::WithPosition { cause, line, column })) => {
            assert!(matches!(*cause, Error::UnimplementedToken { ch: '~' }));
            assert_eq!((line, column), (1, 4));
        }
        other => panic!("unexpected outcome {:?}", other),
    }
}

#[test]
fn every_integer_has_a_numeral() {
    let mut text = String::new();
    push_int(&mut text, i64::MIN);
    assert_eq!(text, "-9223372036854775808");
    let mut text = String::from("n=");
    push_int(&mut text, -1);
    push_int(&mut text, 0);
    push_int(&mut text, i64::MAX);
    assert_eq!(text, "n=-109223372036854775807");
}

#[test]
fn folding_compares_the_lowercase_mappings() {
    assert!(eq_folded('a', 'a', &vec!['x'], &vec!['y']));
    assert!(eq_folded('A', 'a', &vec!['a'], &vec!['a']));
    assert!(!eq_folded('A', 'b', &vec!['a'], &vec!['b']));
    assert!(!eq_folded('İ', 'i', &vec!['i', '\u{307}'], &vec!['i']));
    assert!(eq_folded('x', 'y', &vec![], &vec![]));
}

use canary::ident::Ident;
use canary::pattern::matcher::{eq_ignore_case, Eval};
use canary::pattern::parse::Ast;
use canary::pattern::Var;
use canary::token::Tokenizer;
use canary::Error;

fn compile(re: &str) -> canary::pattern::Pattern {
    let mut stream = Tokenizer::new(re);
    let pat = Ast::parse(&mut stream)
        .unwrap_or_else(|err| panic!("Parse failed: {}", err.to_string()));
    let plain = pat
        .map(&|_: &Var<Ident>| -> Result<String, Error> { Err(Error::NoSuchGlobal) })
        .unwrap_or_else(|err| panic!("Pattern {:?} holds a variable: {}", re, err.to_string()));
    plain.translate()
}

fn assert_match(re: &str, string: &str, expected: &[&str]) {
    let found = compile(re).matches(string).unwrap_or_else(|| {
        panic!("Pattern {} does not match string {:?}", re, string);
    });

    for (id, left, right) in found {
        if let Some(&expected) = expected.get(id as usize) {
            assert_eq!(expected, &string[left..right]);
        }
    }
}

#[test]
fn lib_check_ignore_case() {
    let pairs = &[
        ('a', true, 'a'),
        ('A', true, 'A'),
        ('a', true, 'A'),
        ('a', false, 'b'),
    ];

    for &(lhs, equal, rhs) in pairs {
        if equal {
            assert!(eq_ignore_case(lhs, rhs), "{} == {}", lhs, rhs);
        } else {
            assert!(!eq_ignore_case(lhs, rhs), "{} != {}", lhs, rhs);
        }
    }
}

#[test]
fn mod_check_ignore_case() {
    let pairs = &[
        ('a', true, 'a'),
        ('A', true, 'A'),
        ('a', true, 'A'),
        ('a', false, 'b'),
    ];

    for &(lhs, equal, rhs) in pairs {
        if equal {
            assert!(eq_ignore_case(lhs, rhs), "{} == {}", lhs, rhs);
        } else {
            assert!(!eq_ignore_case(lhs, rhs), "{} != {}", lhs, rhs);
        }
    }
}

#[test]
fn backtracking() {
    assert_match("/./", "the dot", &["t"]);
    assert_match("/\\w/", "word", &["w"]);
    assert_match("/\\w+/", "words", &["words"]);
    assert_match("/CASE/i", "case", &["case"]);
    assert_match("/.+b/", "aaabc", &["aaab"]);
}

#[test]
fn greedy_repetition_gives_back() {
    let found = compile("/(a+)b/").matches("aaab").unwrap();
    assert_eq!(found, vec![(1, 0, 3), (0, 0, 4)]);
}

#[test]
fn first_alternative_wins() {
    let found = compile("/(foo|foobar)/").matches("foobar").unwrap();
    assert_eq!(found, vec![(1, 0, 3), (0, 0, 3)]);
}

#[test]
fn case_folding_needs_the_flag() {
    assert!(compile("/case/i").matches("CASE").is_some());
    assert!(compile("/case/").matches("CASE").is_none());
}

#[test]
fn search_is_leftmost_and_spans_are_bytes() {
    let found = compile("/(b+)/").matches("ééabbb").unwrap();
    assert_eq!(found, vec![(1, 5, 8), (0, 5, 8)]);
}

#[test]
fn empty_haystack_never_matches() {
    assert!(compile("/a*/").matches("").is_none());
}

#[test]
fn a_caret_inverts_a_class_only_as_its_first_character() {
    assert!(compile("/[^a]/").matches("a").is_none());
    assert_match("/[^a]/", "ab", &["b"]);
    assert_match("/[a^]+/", "b^a^c", &["^a^"]);
    assert_match("/[^^]/", "^x", &["x"]);
    assert_match("/[a-c^]+/", "d^ab", &["^ab"]);
    assert!(compile("/[a-c^]/").matches("d").is_none());
}

#[test]
fn spans_of_a_match_are_ordered_and_within_the_text() {
    let text = "żółw: äö";
    let found = compile("/(\\w+): (ä)(x?)/").matches(text).unwrap();
    assert!(!found.is_empty());
    for &(_, left, right) in &found {
        assert!(left <= right && right <= text.len());
        assert!(text.is_char_boundary(left) && text.is_char_boundary(right));
    }
    let whole = found.iter().find(|c| c.0 == 0).unwrap();
    assert_eq!(&text[whole.1..whole.2], "żółw: ä");
}

#[test]
fn a_global_needs_an_identifier() {
    let parse = |re: &str| Ast::parse(&mut Tokenizer::new(re));
    match parse("/a%1x b/") {
        Err(Error::InvalidIdent { input }) => assert_eq!(input.as_str(), "1x"),
        other => panic!("unexpected outcome {:?}", other),
    }
    match parse("/(%/)") {
        Err(Error::InvalidIdent { input }) => assert_eq!(input.as_str(), "/"),
        other => panic!("unexpected outcome {:?}", other),
    }
    assert!(matches!(parse("/a%"), Err(Error::InvalidRegex)));
    assert!(matches!(parse("/a$1/"), Err(Error::InvalidRegex)));
    assert!(matches!(parse("/a)%1/"), Err(Error::InvalidRegex)));
    match Tokenizer::new("re/%_/").tokens() {
        Err(Error::InvalidIdent { input }) => assert_eq!(input.as_str(), "_"),
        other => panic!("unexpected outcome {:?}", other),
    }
    assert!(parse("/%word$/").is_ok());
}

#[test]
fn the_matcher_hands_out_byte_spans() {
    let pattern = compile("/(ó)(.)/");
    let text = "żółw";
    assert_eq!(Eval::new(&pattern, text).eval(), Some(vec![(1, 2, 4), (2, 4, 6), (0, 2, 6)]));
    assert_eq!(Eval::new(&pattern, text).search(), Some(vec![(1, 1, 2), (2, 2, 3), (0, 1, 3)]));
    assert_eq!(pattern.matches(text), Eval::new(&pattern, text).eval());
    assert_eq!(Eval::new(&pattern, "zolw").eval(), None);
}

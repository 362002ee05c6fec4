use oryn::errors::OrynError;
use oryn::lexer::{lex, lex_all, Token};

#[test]
fn tokenizes_source() {
    let (tokens, errors) = lex("let x = 5 + 10");
    let kinds: Vec<_> = tokens.into_iter().map(|(t, _)| t).collect();

    assert!(errors.is_empty());
    assert_eq!(
        kinds,
        vec![
            Token::Let,
            Token::Ident("x".into()),
            Token::Equals,
            Token::Int(5),
            Token::Plus,
            Token::Int(10),
        ]
    );
}

#[test]
fn reports_invalid_characters() {
    let (_, errors) = lex("let x = @");

    assert_eq!(errors.len(), 1);
}

#[test]
fn skips_line_comments() {
    let (tokens, errors) = lex("// leading comment\nlet x = 5 // trailing\nprint(x)");
    let kinds: Vec<_> = tokens.into_iter().map(|(t, _)| t).collect();

    assert!(errors.is_empty());
    assert_eq!(
        kinds,
        vec![
            Token::Newline,
            Token::Let,
            Token::Ident("x".into()),
            Token::Equals,
            Token::Int(5),
            Token::Newline,
            Token::Ident("print".into()),
            Token::LeftParen,
            Token::Ident("x".into()),
            Token::RightParen,
        ]
    );
}

#[test]
fn comment_only_lines_are_skipped() {
    let (tokens, errors) = lex("// just a comment");
    let kinds: Vec<_> = tokens.into_iter().map(|(t, _)| t).collect();

    assert!(errors.is_empty());
    assert!(kinds.is_empty());
}

#[test]
fn lex_all_preserves_comments_with_spans() {
    let source = "// top\nlet x = 5 // trailing";
    let (tokens, errors) = lex_all(source);

    assert!(errors.is_empty());

    let comments: Vec<_> = tokens
        .iter()
        .filter_map(|(t, span)| match t {
            Token::Comment(text) => Some((text.clone(), span.clone())),
            _ => None,
        })
        .collect();

    assert_eq!(comments.len(), 2);
    assert_eq!(comments[0].0, "// top");
    assert_eq!(&source[comments[0].1.clone()], "// top");
    assert_eq!(comments[1].0, "// trailing");
    assert_eq!(&source[comments[1].1.clone()], "// trailing");
}

#[test]
fn lex_all_and_lex_agree_on_non_comment_tokens() {
    let source = "// doc\nlet x = 5\n// more\nlet y = 6";
    let (filtered, _) = lex(source);
    let (all, _) = lex_all(source);

    let all_non_comment: Vec<_> = all
        .into_iter()
        .filter(|(t, _)| !matches!(t, Token::Comment(_)))
        .collect();

    assert_eq!(filtered, all_non_comment);
}

#[test]
fn tokenizes_nil_and_error_tokens() {
    let (tokens, errors) = lex("let x: int? = nil");
    let kinds: Vec<_> = tokens.into_iter().map(|(t, _)| t).collect();
    assert!(errors.is_empty());
    assert_eq!(
        kinds,
        vec![
            Token::Let,
            Token::Ident("x".into()),
            Token::Colon,
            Token::Ident("int".into()),
            Token::Question,
            Token::Equals,
            Token::Nil,
        ]
    );

    let (tokens, errors) = lex("try foo()");
    let kinds: Vec<_> = tokens.into_iter().map(|(t, _)| t).collect();
    assert!(errors.is_empty());
    assert_eq!(
        kinds,
        vec![
            Token::Try,
            Token::Ident("foo".into()),
            Token::LeftParen,
            Token::RightParen,
        ]
    );

    let (tokens, errors) = lex("a orelse b");
    let kinds: Vec<_> = tokens.into_iter().map(|(t, _)| t).collect();
    assert!(errors.is_empty());
    assert_eq!(
        kinds,
        vec![
            Token::Ident("a".into()),
            Token::Orelse,
            Token::Ident("b".into()),
        ]
    );

    let (tokens, errors) = lex("!expr");
    let kinds: Vec<_> = tokens.into_iter().map(|(t, _)| t).collect();
    assert!(errors.is_empty());
    assert_eq!(kinds, vec![Token::Bang, Token::Ident("expr".into()),]);
}

#[test]
fn tokenizes_unless_keyword() {
    let (tokens, errors) = lex("unless ready { print(0) }");
    let kinds: Vec<_> = tokens.into_iter().map(|(t, _)| t).collect();

    assert!(errors.is_empty());
    assert_eq!(
        kinds,
        vec![
            Token::Unless,
            Token::Ident("ready".into()),
            Token::LeftCurly,
            Token::Ident("print".into()),
            Token::LeftParen,
            Token::Int(0),
            Token::RightParen,
            Token::RightCurly,
        ]
    );
}

#[test]
fn tokenizes_test_and_assert_keywords() {
    let (tokens, errors) = lex("test \"adds\" { assert(1 == 1) }");
    let kinds: Vec<_> = tokens.into_iter().map(|(t, _)| t).collect();

    assert!(errors.is_empty());
    assert_eq!(
        kinds,
        vec![
            Token::Test,
            Token::String("adds".into()),
            Token::LeftCurly,
            Token::Assert,
            Token::LeftParen,
            Token::Int(1),
            Token::EqualsEquals,
            Token::Int(1),
            Token::RightParen,
            Token::RightCurly,
        ]
    );

    let (tokens, errors) = lex("tester asserting");
    let kinds: Vec<_> = tokens.into_iter().map(|(t, _)| t).collect();
    assert!(errors.is_empty());
    assert_eq!(
        kinds,
        vec![
            Token::Ident("tester".into()),
            Token::Ident("asserting".into()),
        ]
    );
}

#[test]
fn bang_does_not_break_not_equals() {
    let (tokens, errors) = lex("a != b");
    let kinds: Vec<_> = tokens.into_iter().map(|(t, _)| t).collect();
    assert!(errors.is_empty());
    assert_eq!(
        kinds,
        vec![
            Token::Ident("a".into()),
            Token::NotEquals,
            Token::Ident("b".into()),
        ]
    );
}

#[test]
fn orelse_keyword_and_word_boundary() {
    let (tokens, errors) = lex("x orelse y");
    let kinds: Vec<_> = tokens.into_iter().map(|(t, _)| t).collect();
    assert!(errors.is_empty());
    assert_eq!(
        kinds,
        vec![
            Token::Ident("x".into()),
            Token::Orelse,
            Token::Ident("y".into()),
        ]
    );

    let (tokens, errors) = lex("orelseb");
    let kinds: Vec<_> = tokens.into_iter().map(|(t, _)| t).collect();
    assert!(errors.is_empty());
    assert_eq!(kinds, vec![Token::Ident("orelseb".into())]);

    let (tokens, errors) = lex("x?");
    let kinds: Vec<_> = tokens.into_iter().map(|(t, _)| t).collect();
    assert!(errors.is_empty());
    assert_eq!(kinds, vec![Token::Ident("x".into()), Token::Question,]);
}

// ---------------------------------------------------------------------------
// Further cases of the lexical grammar.
// ---------------------------------------------------------------------------

fn kinds(source: &str) -> Vec<Token> {
    lex(source).0.into_iter().map(|(t, _)| t).collect()
}

fn error_spans(source: &str) -> Vec<std::ops::Range<usize>> {
    lex(source)
        .1
        .into_iter()
        .map(|e| match e {
            OrynError::Lexer { span } => span,
            other => panic!("expected a lexer error, got {other:?}"),
        })
        .collect()
}

#[test]
fn ranges_are_not_floats() {
    assert_eq!(
        kinds("0..10 0..=3 1.5"),
        vec![
            Token::Int(0),
            Token::DotDot,
            Token::Int(10),
            Token::Int(0),
            Token::DotDotEquals,
            Token::Int(3),
            Token::Float("1.5".into()),
        ]
    );
}

#[test]
fn float_text_converts_to_the_value() {
    match &kinds("3.25")[0] {
        Token::Float(text) => assert_eq!(text.parse::<f32>().unwrap(), 3.25f32),
        other => panic!("expected a float, got {other:?}"),
    }
}

#[test]
fn two_char_operators_win_over_one_char() {
    assert_eq!(
        kinds("== = != ! <= < >= > -> - / *"),
        vec![
            Token::EqualsEquals,
            Token::Equals,
            Token::NotEquals,
            Token::Bang,
            Token::LessThanEquals,
            Token::LessThan,
            Token::GreaterThanEquals,
            Token::GreaterThan,
            Token::Arrow,
            Token::Minus,
            Token::Divide,
            Token::Multiply,
        ]
    );
}

#[test]
fn integer_too_large_for_i32_is_an_error() {
    assert_eq!(kinds("2147483647"), vec![Token::Int(2147483647)]);
    assert_eq!(error_spans("x = 2147483648"), vec![4..14]);
}

#[test]
fn unterminated_string_is_one_error_to_the_end() {
    assert_eq!(error_spans("let s = \"abc"), vec![8..12]);
}

#[test]
fn string_keeps_escapes_and_spans_lines() {
    assert_eq!(kinds("\"a\\\"b\""), vec![Token::String("a\\\"b".into())]);
    assert_eq!(kinds("\"a\nb\""), vec![Token::String("a\nb".into())]);
}

#[test]
fn escaped_newline_ends_a_string_in_error() {
    assert_eq!(error_spans("\"a\\\nb"), vec![0..3]);
    assert_eq!(
        kinds("\"a\\\nb"),
        vec![Token::Newline, Token::Ident("b".into())]
    );
}

#[test]
fn non_ascii_character_is_one_error_span() {
    assert_eq!(error_spans("é"), vec![0..2]);
    assert_eq!(error_spans("a\r"), vec![1..2]);
}

#[test]
fn tokens_carry_byte_spans() {
    let (tokens, _) = lex("let  xy");
    let spans: Vec<_> = tokens.into_iter().map(|(_, s)| s).collect();
    assert_eq!(spans, vec![0..3, 5..7]);
}

#[test]
fn comment_text_may_hold_any_character() {
    let (tokens, _) = lex_all("// ünïcode\n");
    assert_eq!(tokens[0].0, Token::Comment("// ünïcode".into()));
    assert_eq!(tokens[1].0, Token::Newline);
}

#[test]
fn tokens_follow_the_source_in_order() {
    let source = "let x = 1 // note\nprint(x, \"a b\") @ 2.5";
    for (tokens, _) in [lex(source), lex_all(source)] {
        let mut last_end = 0;
        for (_, span) in &tokens {
            assert!(last_end <= span.start);
            assert!(span.start < span.end);
            assert!(span.end <= source.len());
            last_end = span.end;
        }
    }
    assert!(lex_all(source).0.len() > lex(source).0.len());
}

use leoscript::lexer::{Cursor, Lexer, LexerOptions, MatchedToken, Matcher};

#[derive(Clone, Debug, PartialEq)]
enum MyTokens {
    Mary,
    Lamb,
    Numeric,
    Text,
    Baa,
    Function,
    End,
    Comment,
    NoArgs,
    Identifier,
}

fn token(condition: &str, value: MyTokens) -> Matcher<MyTokens> {
    Matcher::MatchToken { condition: String::from(condition), case_sensitive: false, value }
}

fn pattern_matcher(condition: &str, value: MyTokens) -> Matcher<MyTokens> {
    Matcher::MatchRegex { condition: String::from(condition), value }
}

fn found(token: MyTokens, text: &str, position: usize, line: usize, column: usize) -> Option<Result<MatchedToken<MyTokens>, leoscript::lexer::LexerError>> {
    Some(Ok(MatchedToken { token, text: String::from(text), cursor: Cursor { position, line, column } }))
}

#[test]
fn test_mary_had_a_little_lamb() {
    let tokens = vec![
        token("Mary", MyTokens::Mary),
        token("lamb", MyTokens::Lamb),
        pattern_matcher("^[0-9]+", MyTokens::Numeric),
        pattern_matcher("^[a-zA-Z]+", MyTokens::Text),
    ];

    let mut t = Lexer::new("Mary had a little lamb", tokens, LexerOptions { ignore_whitespace: true });

    assert_eq!(t.next(), found(MyTokens::Mary, "Mary", 0, 1, 1), "Expected Mary");
    assert!(t.has_more_tokens(), "Not expected EOF");

    assert_eq!(t.next(), found(MyTokens::Text, "had", 5, 1, 6), "Expected had");
    assert!(t.has_more_tokens(), "Not expected EOF");

    assert_eq!(t.next(), found(MyTokens::Text, "a", 9, 1, 10), "Expected a");
    assert!(t.has_more_tokens(), "Not expected EOF");

    assert_eq!(t.next(), found(MyTokens::Text, "little", 11, 1, 12), "Expected little");
    assert!(t.has_more_tokens(), "Not expected EOF");

    assert_eq!(t.next(), found(MyTokens::Lamb, "lamb", 18, 1, 19), "Expected lamb");

    assert!(!t.has_more_tokens(), "No more tokens expected");
    assert!(t.is_eof(), "Expected EOF");
}

#[test]
fn test_peek_token() {
    let tokens = vec![pattern_matcher("^[a-zA-Z]+", MyTokens::Text)];

    let mut t = Lexer::new("Merry Christmas", tokens, LexerOptions { ignore_whitespace: true });

    assert_eq!(t.peek(), found(MyTokens::Text, "Merry", 0, 1, 1), "Expected Merry");
    assert_eq!(t.next(), found(MyTokens::Text, "Merry", 0, 1, 1), "Expected Merry");
    assert!(t.has_more_tokens(), "Not expected EOF");

    assert_eq!(t.peek(), found(MyTokens::Text, "Christmas", 6, 1, 7), "Expected Christmas");
    assert_eq!(t.next(), found(MyTokens::Text, "Christmas", 6, 1, 7), "Expected Christmas");

    assert!(!t.has_more_tokens(), "No more tokens expected");
    assert!(t.is_eof(), "Expected EOF");
}

#[test]
fn test_baa_baa() {
    let tokens = vec![token("Baa", MyTokens::Baa), pattern_matcher("^[a-zA-Z]+", MyTokens::Text)];

    let mut t = Lexer::new("Baa baa black sheep", tokens, LexerOptions { ignore_whitespace: true });

    assert_eq!(t.next(), found(MyTokens::Baa, "Baa", 0, 1, 1), "Expected Baa");
    assert_eq!(t.next(), found(MyTokens::Baa, "baa", 4, 1, 5), "Expected baa");
    assert_eq!(t.next(), found(MyTokens::Text, "black", 8, 1, 9), "Expected black");
    assert_eq!(t.next(), found(MyTokens::Text, "sheep", 14, 1, 15), "Expected sheep");

    assert!(!t.has_more_tokens(), "No more tokens expected");
    assert!(t.is_eof(), "Expected EOF");
}

#[test]
fn test_function_declaration() {
    let tokens = vec![
        Matcher::MatchToken { value: MyTokens::Function, condition: String::from("function"), case_sensitive: true },
        Matcher::MatchToken { value: MyTokens::End, condition: String::from("end"), case_sensitive: false },
        Matcher::MatchRegex { value: MyTokens::Comment, condition: String::from(r"^--[^\n]*") },
        Matcher::MatchToken { value: MyTokens::NoArgs, condition: String::from("()"), case_sensitive: false },
        Matcher::MatchRegex { value: MyTokens::Identifier, condition: String::from(r"^[a-zA-Z_][a-zA-Z0-9_]*") },
    ];

    let mut t = Lexer::new(
        r#"
        -- this is a comment
        function main()
        end
        "#,
        tokens,
        LexerOptions { ignore_whitespace: true },
    );

    assert_eq!(t.next(), found(MyTokens::Comment, "-- this is a comment", 9, 2, 9), "Expected comment");
    assert_eq!(t.next(), found(MyTokens::Function, "function", 38, 3, 9), "Expected function");
    assert_eq!(t.next(), found(MyTokens::Identifier, "main", 47, 3, 18), "Expected main");
    assert_eq!(t.next(), found(MyTokens::NoArgs, "()", 51, 3, 22), "Expected ()");
    assert_eq!(t.next(), found(MyTokens::End, "end", 62, 4, 9), "Expected end");

    assert!(!t.has_more_tokens(), "No more tokens expected");
}

#[test]
fn lexer_without_whitespace_skipping_stops_at_a_space() {
    let mut t = Lexer::new("Mary had", vec![pattern_matcher("^[a-zA-Z]+", MyTokens::Text)], LexerOptions { ignore_whitespace: false });
    assert_eq!(t.next(), found(MyTokens::Text, "Mary", 0, 1, 1));
    assert_eq!(t.next(), Some(Err(leoscript::lexer::LexerError::NoMatch)));
    assert!(!t.has_more_tokens());
}

#[test]
fn lexer_reports_an_invalid_regular_expression() {
    let mut t = Lexer::new("abc", vec![pattern_matcher("^[a-", MyTokens::Text)], LexerOptions { ignore_whitespace: false });
    assert!(matches!(t.next(), Some(Err(leoscript::lexer::LexerError::InvalidRegularExpression(_)))));
}

#[test]
fn lexer_skip_and_cursor() {
    let mut t = Lexer::new("ab cd", vec![pattern_matcher("^[a-z]+", MyTokens::Text)], LexerOptions { ignore_whitespace: true });
    assert_eq!(t.skip(), Ok(()));
    assert_eq!(t.get_cursor(), Cursor { position: 2, line: 1, column: 3 });
    assert_eq!(t.skip(), Ok(()));
    assert_eq!(t.skip(), Err(leoscript::lexer::LexerError::EndOfFile));
}

#[test]
fn lexer_tokens_are_the_source_text_at_their_cursor() {
    let source = "Mary had\n  a lamb";
    let mut t = Lexer::new(source, vec![pattern_matcher("^[a-zA-Z]+", MyTokens::Text)], LexerOptions { ignore_whitespace: true });
    let mut count = 0;
    while let Some(Ok(m)) = t.next() {
        let start = m.cursor.position;
        assert_eq!(&source[start..start + m.text.len()], m.text.as_str());
        assert_eq!(t.get_cursor().position, start + m.text.len());
        count += 1;
    }
    assert_eq!(count, 4);
    assert_eq!(t.get_cursor(), Cursor { position: 17, line: 2, column: 9 });
}

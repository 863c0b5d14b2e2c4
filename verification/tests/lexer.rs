use eql::lexer::{lex, Token, TokenValue};

#[test]
fn lex_empty() {
    let source = "";
    let tokens = lex(source).expect("Lex must succeed");
    assert!(tokens.is_empty());
}

#[test]
fn lex_whitespace() {
    let source = " \n\r\n\t";
    let got = lex(source).expect("Lex must succeed");
    let expect = vec![
        Token::new(TokenValue::Whitespace, " \n".to_string(), 1, 1),
        Token::new(TokenValue::Whitespace, " \n".to_string(), 1, 2),
        Token::new(TokenValue::Whitespace, "\r\n".to_string(), 2, 1),
        Token::new(TokenValue::Whitespace, "\t".to_string(), 3, 1),
    ];
    assert_eq!(got, expect);
}

#[test]
fn lex_words_and_whitespace() {
    let source = "Create\n孫德明";
    let expect = vec![
        Token::new(
            TokenValue::Word("Create".to_string()),
            "Create\n".to_string(),
            1,
            1,
        ),
        Token::new(TokenValue::Whitespace, "Create\n".to_string(), 1, 7),
        Token::new(TokenValue::Word("孫".to_string()), "孫德明".to_string(), 2, 1),
        Token::new(TokenValue::Word("德".to_string()), "孫德明".to_string(), 2, 2),
        Token::new(TokenValue::Word("明".to_string()), "孫德明".to_string(), 2, 3),
    ];
    let got = lex(source).expect("Lex must succeed");
    assert_eq!(got, expect);
}

#[test]
fn lex_punctuation() {
    let source = ".,!?";
    let expect = vec![
        Token::new(
            TokenValue::Punctuation(".".to_string()),
            source.to_string(),
            1,
            1,
        ),
        Token::new(
            TokenValue::Punctuation(",".to_string()),
            source.to_string(),
            1,
            2,
        ),
        Token::new(
            TokenValue::Punctuation("!".to_string()),
            source.to_string(),
            1,
            3,
        ),
        Token::new(
            TokenValue::Punctuation("?".to_string()),
            source.to_string(),
            1,
            4,
        ),
    ];
    let got = lex(source).expect("Lex must succeed");
    assert_eq!(got, expect);
}

#[test]
fn lex_unknown() {
    // All Unicode character categories that the lexer should not accept at
    // all, or not on their own (in the case of the M categories). The only
    // exceptions are ' ', '.', ',', '!', '?', covered above.
    let chars = vec![
        "\u{0000}", // Cc Control
        "\u{00AD}", // Cf Format
        "\u{0903}", // Mc Spacing Mark
        "\u{0488}", // Me Enclosing Mark
        "\u{0300}", // Mn Nonspacing Mark
        "0",        // Nd Decimal Number
        "\u{16EE}", // Nl Letter Number
        "\u{00B2}", // No Other Number
        "\u{005F}", // Pc Connector Punctuation
        "-",        // Pd Dash Punctuation
        ")",        // Pe Close Punctuation
        "\u{00BB}", // Pf Final Punctuation
        "\u{00AB}", // Pi Initial Punctuation
        "\"",       // Po Other Punctuation
        "$",        // Sc Currency Symbol
        "^",        // Sk Modifier Symbol
        "+",        // Sm Math Symbol
        "\u{00A6}", // So Other Symbol
    ];
    chars.into_iter().map(lex).for_each(|r| {
        r.unwrap_err();
    });
}

#[test]
fn error_format() {
    let source = "孫德 12345";
    let expect = "Error on line 1, column 4: unknown token \"12345\"\n  孫德 12345\n     ^^^^^";
    let got = lex(source).expect_err("Lex must fail").render();
    assert_eq!(got, expect);
}

#[test]
fn lex_letters_and_reserved_punctuation_only() {
    // Letter-run and reserved-punctuation inputs from several scripts
    // tokenize without error.
    for source in ["Ana, Maria and Ion.", "Здравствуй!", "שלום?", "こんにちは."] {
        lex(source).expect("Lex must succeed");
    }
}

#[test]
fn lex_fails_on_exact_bad_character() {
    // The failing token is exactly the offending character's token.
    let err = lex("Add Bob5 to HR.").expect_err("Lex must fail");
    let token = err.token();
    assert_eq!(token.value, TokenValue::Unknown("Bob5".to_string()));
    assert_eq!(token.line_number, 1);
    assert_eq!(token.column_number, 5);
}

#[test]
fn column_counts_grapheme_clusters() {
    // The first word is one grapheme cluster built from two Hangul jamo
    // letters, so the following tokens advance by one column, not two.
    let source = "\u{1100}\u{1161} Show HR?";
    let tokens = lex(source).expect("Lex must succeed");
    assert_eq!(tokens[0].value, TokenValue::Word("\u{1100}\u{1161}".to_string()));
    assert_eq!(tokens[0].column_number, 1);
    assert_eq!(tokens[1].value, TokenValue::Whitespace);
    assert_eq!(tokens[1].column_number, 2);
    assert_eq!(tokens[2].value, TokenValue::Word("Show".to_string()));
    assert_eq!(tokens[2].column_number, 3);
}

#[test]
fn token_value_display_text() {
    assert_eq!(TokenValue::Whitespace.render(), "any whitespace token");
    assert_eq!(
        TokenValue::Word("".to_string()).render(),
        "any word token"
    );
    assert_eq!(
        TokenValue::Word("to".to_string()).render(),
        "word token \"to\""
    );
    assert_eq!(
        TokenValue::Punctuation("!".to_string()).render(),
        "punctuation token \"!\""
    );
    assert_eq!(TokenValue::Whitespace.get(), " ");
    assert_eq!(TokenValue::Word("Ana".to_string()).get(), "Ana");
}

#[test]
fn last_token_value_classifies_tail() {
    assert_eq!(eql::lexer::last_token_value(""), None);
    assert_eq!(
        eql::lexer::last_token_value("Show HR"),
        Some(TokenValue::Word("HR".to_string()))
    );
    assert_eq!(
        eql::lexer::last_token_value("Show HR?"),
        Some(TokenValue::Punctuation("?".to_string()))
    );
    assert_eq!(
        eql::lexer::last_token_value("Show HR "),
        Some(TokenValue::Whitespace)
    );
}

#[test]
fn string_length_counts_graphemes() {
    // Two Hangul jamo letters form one grapheme cluster: one column, not two.
    assert_eq!(eql::util::string_length("\u{1100}\u{1161}"), 1);
    assert_eq!(eql::util::string_length(""), 0);
    assert_eq!(eql::util::string_length("abc"), 3);
}

#[test]
fn character_classification() {
    assert!(eql::util::is_alphabetic("Ana"));
    assert!(eql::util::is_alphabetic("立顯榮朝士"));
    assert!(!eql::util::is_alphabetic("Ana5"));
    assert!(eql::util::is_whitespace(" \t\r\n"));
    assert!(!eql::util::is_whitespace(" a "));
}

#[test]
fn token_pointer_alignment() {
    let (padding, pointer) = eql::util::fmt_token_pointer("ab", 4);
    assert_eq!(padding, "   ");
    assert_eq!(pointer, "^^");
}

#[test]
fn list_formatting() {
    let two = eql::util::to_string_vec(vec!["a", "b"]);
    assert_eq!(eql::util::fmt_list(&two, ", ", "and"), "a and b");
    let three = eql::util::to_string_vec(vec!["a", "b", "c"]);
    assert_eq!(eql::util::fmt_list(&three, ", ", "or"), "a, b, or c");
    let one = eql::util::to_string_vec(vec!["a"]);
    assert_eq!(eql::util::fmt_list(&one, ", ", "and"), "a");
    let none: Vec<String> = vec![];
    assert_eq!(eql::util::fmt_list(&none, ", ", "and"), "");
}

#[test]
fn decimal_rendering() {
    assert_eq!(eql::util::usize_to_string(0), "0");
    assert_eq!(eql::util::usize_to_string(7), "7");
    assert_eq!(eql::util::usize_to_string(12034), "12034");
}

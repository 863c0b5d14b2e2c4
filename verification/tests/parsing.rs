use eql::lexer::{self, TokenValue};
use eql::operation::{
    Modifier, Operation, OperationAdd, OperationCreate, OperationRemove, OperationShow,
};
use eql::parser::{parse, parse_add, parse_list, Error};
use eql::util::to_string_vec;

#[test]
fn test_parse_add() {
    let test_sources = &[
        "Add Mihai, Andrei and Ioan to Science and Engineering!",
        "Add Mihai, Andrei and Ioan to Science and Engineering",
        "Add Mihai, Andrei and Ioan to .",
        "Add Mihai, Andrei and Ioan.",
        "Add to?",
        "Add Mihai",
        "Add!",
    ];
    type FnExpect = fn(Result<Operation, Error>) -> bool;
    let expect: &[FnExpect] = &[
        |res| {
            res == Ok(OperationAdd::new(
                to_string_vec(vec!["Science", "Engineering"]),
                to_string_vec(vec!["Mihai", "Andrei", "Ioan"]),
                Modifier::Overwrite,
            )
            .into())
        },
        |res| res.is_err(),
        |res| res.is_err(),
        |res| res.is_err(),
        |res| res.is_err(),
        |res| res.is_err(),
        |res| res.is_err(),
    ];
    test_sources
        .iter()
        .map(|s| lexer::lex(s).unwrap())
        .map(|t| parse_add(&t[0], &t[1..]))
        .zip(expect.iter())
        .for_each(|(res, f)| assert!(f(res)));
}

#[test]
fn test_parse_create() {
    let tokens = lexer::lex("Create Science, Engineering and Physics.").unwrap();
    let expect: Operation = OperationCreate::new(
        to_string_vec(vec!["Science", "Engineering", "Physics"]),
        Modifier::Plain,
    )
    .into();
    let got = parse(tokens).unwrap();
    assert_eq!(got[0], expect);
}

#[test]
fn test_parse_show() {
    let tokens = lexer::lex("Show Science, Engineering and Physics?").unwrap();
    let expect: Operation = OperationShow::new(
        to_string_vec(vec!["Science", "Engineering", "Physics"]),
        true,
    )
    .into();
    let got = parse(tokens).unwrap();
    assert_eq!(got[0], expect);
}

#[test]
fn test_parse_remove() {
    let source = vec!["Remove Science.", "Remove Michael from Physics?"];
    let expect: Vec<Operation> = vec![
        OperationRemove::new(to_string_vec(vec!["Science"]), vec![], false).into(),
        OperationRemove::new(
            to_string_vec(vec!["Physics"]),
            to_string_vec(vec!["Michael"]),
            true,
        )
        .into(),
    ];
    source
        .into_iter()
        .map(|s| parse(lexer::lex(s).unwrap()).unwrap())
        .zip(expect.into_iter())
        .for_each(|(got, expected)| assert_eq!(got[0], expected));
}

#[test]
fn parse_list_usual() {
    let tokens = lexer::lex("Moraru   Mihaela  , Mircea Ioan and Amalia Brad.").unwrap();
    let seps = vec![TokenValue::Punctuation(".".to_string())];
    let (got, ..) = parse_list(&tokens, &seps).unwrap();
    let expect = to_string_vec(vec!["Moraru Mihaela", "Mircea Ioan", "Amalia Brad"]);
    assert_eq!(got, expect);
}

#[test]
fn parse_list_multiple_consecutive_separators() {
    let seps = vec![TokenValue::Punctuation(".".to_string())];
    vec!["Mama, and, Tata.", "Mama,, Tata.", "Mama and and Tata."]
        .into_iter()
        .map(lexer::lex)
        .map(Result::unwrap)
        .map(|tokens| parse_list(&tokens, &seps).map(|res| res.0))
        .for_each(|res| assert!(res.is_err()));
}

#[test]
fn parse_list_oxford_comma_before_and() {
    let tokens = lexer::lex("Mama, Tata, and Ioan.").unwrap();
    let seps = vec![TokenValue::Punctuation(".".to_string())];
    let (got, consumed) = parse_list(&tokens, &seps).unwrap();
    assert_eq!(got, to_string_vec(vec!["Mama", "Tata", "Ioan"]));
    assert_eq!(tokens[consumed].value, TokenValue::Punctuation(".".to_string()));
}

#[test]
fn parse_rejects_reserved_word_in_list() {
    let got = parse(lexer::lex("Create Add.").unwrap());
    assert!(got.is_err());
    let got = parse(lexer::lex("Add Ana, from to HR.").unwrap());
    assert!(got.is_err());
}

#[test]
fn parse_unrecognized_top_level_token() {
    assert!(parse(lexer::lex("Hello.").unwrap()).is_err());
    assert!(parse(lexer::lex(".").unwrap()).is_err());
}

#[test]
fn parse_missing_terminator() {
    assert!(parse(lexer::lex("Create Sales").unwrap()).is_err());
}

#[test]
fn parse_invalid_modifier_for_show_and_remove() {
    assert!(parse(lexer::lex("Show HR!").unwrap()).is_err());
    assert!(parse(lexer::lex("Remove Ana from HR!").unwrap()).is_err());
    assert!(parse(lexer::lex("Show HR?").unwrap()).is_ok());
    assert!(parse(lexer::lex("Add Ana to HR?").unwrap()).is_ok());
}

#[test]
fn parse_remove_with_empty_department_list_after_from() {
    assert!(parse(lexer::lex("Remove Science from .").unwrap()).is_err());
}

#[test]
fn parse_multiple_statements() {
    let tokens = lexer::lex("Create HR. Add Ana to HR! Show HR?").unwrap();
    let got = parse(tokens).unwrap();
    let expect: Vec<Operation> = vec![
        OperationCreate::new(to_string_vec(vec!["HR"]), Modifier::Plain).into(),
        OperationAdd::new(
            to_string_vec(vec!["HR"]),
            to_string_vec(vec!["Ana"]),
            Modifier::Overwrite,
        )
        .into(),
        OperationShow::new(to_string_vec(vec!["HR"]), true).into(),
    ];
    assert_eq!(got, expect);
}

#[test]
fn parse_error_format() {
    let err = parse(lexer::lex("Show HR!").unwrap()).expect_err("parse must fail");
    let expect = "Error on Show operation on line 1, column 8:\n  Show HR!\n  ^^^^   ^\nUnexpected punctuation token \"!\"\nExpected punctuation token \".\" or punctuation token \"?\" instead\npunctuation token \"!\" is not a valid modifier for the operation";
    assert_eq!(err.render(), expect);
}

#[test]
fn parse_list_ends_at_stream_end() {
    // A list the stream cuts off ends normally: the elements parsed so far
    // are returned with the whole slice consumed.
    let seps = vec![TokenValue::Punctuation(".".to_string())];
    let tokens = lexer::lex("Moraru Mihaela").unwrap();
    let (got, consumed) = parse_list(&tokens, &seps).unwrap();
    assert_eq!(got, to_string_vec(vec!["Moraru Mihaela"]));
    assert_eq!(consumed, tokens.len());
    let tokens = lexer::lex("Mama, Tata").unwrap();
    let (got, consumed) = parse_list(&tokens, &seps).unwrap();
    assert_eq!(got, to_string_vec(vec!["Mama", "Tata"]));
    assert_eq!(consumed, tokens.len());
}

#[test]
fn missing_terminator_error_format() {
    let err = parse(lexer::lex("Create Sales").unwrap()).expect_err("parse must fail");
    let expect = "Error on Create operation on line 1, column 1:\n  Create Sales\n  ^^^^^^\nExpected punctuation token \".\", punctuation token \"!\", or punctuation token \"?\"\nYou didn't terminate your operation!";
    assert_eq!(err.render(), expect);
}

#[test]
fn parse_remove_trailing_from_is_unterminated() {
    let err = parse(lexer::lex("Remove Science from").unwrap()).expect_err("parse must fail");
    let expect = "Error on Remove operation on line 1, column 16:\n  Remove Science from\n  ^^^^^^         ^^^^\nUnexpected word token \"from\"\nExpected punctuation token \".\" or punctuation token \"?\" instead\nYou didn't terminate your operation!";
    assert_eq!(err.render(), expect);
}

use eql::lex_parse;
use eql::operation::{
    Modifier, Operation, OperationAdd, OperationCreate, OperationRemove, OperationShow,
};
use eql::util::to_string_vec;

#[test]
fn whitespace_only_input_yields_no_operations() {
    for source in ["", " ", " \t", " \n\r\n\t", "\r\n\r\n", "\t \t"] {
        let ops = lex_parse(source).expect("pipeline must succeed");
        assert!(ops.is_empty());
        let tokens = eql::lex(source).expect("lex must succeed");
        assert!(tokens
            .iter()
            .all(|t| t.value == eql::lexer::TokenValue::Whitespace));
    }
}

#[test]
fn create_statement() {
    let ops = lex_parse("Create Science, Engineering and Physics.").unwrap();
    let expect: Vec<Operation> = vec![OperationCreate::new(
        to_string_vec(vec!["Science", "Engineering", "Physics"]),
        Modifier::Plain,
    )
    .into()];
    assert_eq!(ops, expect);
}

#[test]
fn show_statement() {
    let ops = lex_parse("Show HR?").unwrap();
    let expect: Vec<Operation> =
        vec![OperationShow::new(to_string_vec(vec!["HR"]), true).into()];
    assert_eq!(ops, expect);
}

#[test]
fn add_statement() {
    let ops = lex_parse("Add Mihai, Andrei and Ioan to Science and Engineering!").unwrap();
    let expect: Vec<Operation> = vec![OperationAdd::new(
        to_string_vec(vec!["Science", "Engineering"]),
        to_string_vec(vec!["Mihai", "Andrei", "Ioan"]),
        Modifier::Overwrite,
    )
    .into()];
    assert_eq!(ops, expect);
}

#[test]
fn remove_statements() {
    let ops = lex_parse("Remove Michael from Physics?").unwrap();
    let expect: Vec<Operation> = vec![OperationRemove::new(
        to_string_vec(vec!["Physics"]),
        to_string_vec(vec!["Michael"]),
        true,
    )
    .into()];
    assert_eq!(ops, expect);

    let ops = lex_parse("Remove Science.").unwrap();
    let expect: Vec<Operation> =
        vec![OperationRemove::new(to_string_vec(vec!["Science"]), vec![], false).into()];
    assert_eq!(ops, expect);
}

#[test]
fn malformed_statements_fail_without_panicking() {
    for source in [
        "Add Mihai, Andrei and Ioan to .",
        "Add to?",
        "Add!",
        "Mama, and, Tata.",
    ] {
        assert!(lex_parse(source).is_err());
    }
}

#[test]
fn rendered_plain_operation_parses_back() {
    // A statement with no modifier renders to its canonical text; with the
    // plain terminator appended it parses back to the same operation.
    for source in [
        "Create Science, Engineering and Physics.",
        "Show HR.",
        "Add Mihai, Andrei and Ioan to Science and Engineering.",
        "Remove Michael from Physics.",
        "Remove Science.",
    ] {
        let ops = lex_parse(source).unwrap();
        assert_eq!(ops.len(), 1);
        let mut rendered = ops[0].render();
        rendered.push('.');
        let again = lex_parse(&rendered).unwrap();
        assert_eq!(again, ops);
    }
}

#[test]
fn pipeline_error_render_matches_lexer() {
    let err = lex_parse("孫德 12345").expect_err("pipeline must fail");
    assert_eq!(
        err.render(),
        "Error on line 1, column 4: unknown token \"12345\"\n  孫德 12345\n     ^^^^^"
    );
}

pub mod constants;
pub mod error;
pub mod model;
pub mod util;

pub use error::Error;
pub use util::{
    get_operation_tokens, get_parse_list_error_handler_generator, handle_terminator, parse_list,
    ParseListError,
};

use self::constants::{keywords, terminators, to_terminators, tv_is_word};
use self::error::{spec_list_error, SpecError};
use self::model::{
    kw_add, kw_create, kw_remove, kw_show, lemma_op_token_count_bounds, lemma_parse_list_parsed,
    lemma_op_tokens_statement_slice, linker_from, linker_to, op_token_count, seq_from,
    spec_parse_list, spec_remove_list_terminators, spec_terminators, statement_slice,
    SpecListOutcome,
};
use self::util::spec_handle_terminator;
use crate::lexer::{
    lemma_token_views_subrange, token_clone, token_views, SpecToken, Token, TokenValue,
};
use crate::operation::{
    op_views, Modifier, Operation, OperationAdd, OperationCreate, OperationRemove, OperationShow,
    SpecOperation, SpecOperationAdd, SpecOperationCreate, SpecOperationRemove, SpecOperationShow,
};
use vstd::prelude::*;
use vstd::slice::{slice_index_get, slice_subrange};

verus! {

// ---------------------------------------------------------------------------
// The four statement parsers, as functions of the statement's token slice
// ---------------------------------------------------------------------------
/// One "Add" statement: a name list up to "to", a department list up to the
/// terminator, then the terminator resolved into the modifier.
pub open spec fn spec_parse_add(op_token: SpecToken, tokens: Seq<SpecToken>) -> Result<
    SpecOperation,
    SpecError,
> {
    match spec_parse_list(tokens, seq![linker_to()]) {
        SpecListOutcome::Failed { unexpected, has_elems } => Result::Err(
            spec_list_error("Add"@, op_token, seq![linker_to()], "name"@, unexpected, has_elems),
        ),
        SpecListOutcome::Parsed { elems: names, consumed: i } => {
            match spec_parse_list(seq_from(tokens, i + 1), spec_terminators()) {
                SpecListOutcome::Failed { unexpected, has_elems } => Result::Err(
                    spec_list_error(
                        "Add"@,
                        op_token,
                        spec_terminators(),
                        "department"@,
                        unexpected,
                        has_elems,
                    ),
                ),
                SpecListOutcome::Parsed { elems: departments, consumed: j } => {
                    spec_handle_terminator(
                        seq_from(tokens, i + j + 1),
                        SpecOperation::Add(
                            SpecOperationAdd { names, departments, modifier: Modifier::Plain },
                        ),
                        op_token,
                    )
                },
            }
        },
    }
}

/// One "Create" statement: a department list up to the terminator, then the
/// terminator resolved into the modifier.
pub open spec fn spec_parse_create(op_token: SpecToken, tokens: Seq<SpecToken>) -> Result<
    SpecOperation,
    SpecError,
> {
    match spec_parse_list(tokens, spec_terminators()) {
        SpecListOutcome::Failed { unexpected, has_elems } => Result::Err(
            spec_list_error(
                "Create"@,
                op_token,
                spec_terminators(),
                "department"@,
                unexpected,
                has_elems,
            ),
        ),
        SpecListOutcome::Parsed { elems: departments, consumed: i } => {
            spec_handle_terminator(
                seq_from(tokens, i),
                SpecOperation::Create(
                    SpecOperationCreate { departments, modifier: Modifier::Plain },
                ),
                op_token,
            )
        },
    }
}

/// One "Show" statement: like "Create", but `!` will be refused by the
/// terminator resolution.
pub open spec fn spec_parse_show(op_token: SpecToken, tokens: Seq<SpecToken>) -> Result<
    SpecOperation,
    SpecError,
> {
    match spec_parse_list(tokens, spec_terminators()) {
        SpecListOutcome::Failed { unexpected, has_elems } => Result::Err(
            spec_list_error(
                "Show"@,
                op_token,
                spec_terminators(),
                "department"@,
                unexpected,
                has_elems,
            ),
        ),
        SpecListOutcome::Parsed { elems: departments, consumed: i } => {
            spec_handle_terminator(
                seq_from(tokens, i),
                SpecOperation::Show(SpecOperationShow { departments, modifier: Modifier::Plain }),
                op_token,
            )
        },
    }
}

/// One "Remove" statement. The first list may stop at "from" or at the
/// terminator; a second list is then attempted, and a non-empty second list
/// makes the first one the names and the second the departments, while an
/// absent or empty second list makes the first list the departments. A
/// malformed second list after "from" with tokens still ahead is an error of
/// its own.
pub open spec fn spec_parse_remove(op_token: SpecToken, tokens: Seq<SpecToken>) -> Result<
    SpecOperation,
    SpecError,
> {
    match spec_parse_list(tokens, spec_remove_list_terminators()) {
        SpecListOutcome::Failed { unexpected, has_elems } => Result::Err(
            spec_list_error(
                "Remove"@,
                op_token,
                spec_terminators(),
                "name or department"@,
                unexpected,
                has_elems,
            ),
        ),
        SpecListOutcome::Parsed { elems: first, consumed: i } => {
            match spec_parse_list(seq_from(tokens, i + 1), spec_terminators()) {
                SpecListOutcome::Parsed { elems: second, consumed: j } => {
                    spec_handle_terminator(
                        seq_from(tokens, i + j + 1),
                        SpecOperation::Remove(
                            SpecOperationRemove {
                                names: first,
                                departments: second,
                                modifier: Modifier::Plain,
                            },
                        ),
                        op_token,
                    )
                },
                SpecListOutcome::Failed { unexpected, has_elems } => {
                    if i < tokens.len() && tokens[i].value == linker_from() && i + 1
                        < tokens.len() {
                        Result::Err(
                            spec_list_error(
                                "Remove"@,
                                op_token,
                                spec_terminators(),
                                "department"@,
                                unexpected,
                                has_elems,
                            ),
                        )
                    } else {
                        spec_handle_terminator(
                            seq_from(tokens, i),
                            SpecOperation::Remove(
                                SpecOperationRemove {
                                    names: Seq::empty(),
                                    departments: first,
                                    modifier: Modifier::Plain,
                                },
                            ),
                            op_token,
                        )
                    }
                },
            }
        },
    }
}

// ---------------------------------------------------------------------------
// The dispatcher
// ---------------------------------------------------------------------------
/// The dispatcher's walk: skip whitespace, slice one statement per keyword
/// and parse it, and fail on any other token or on the first statement that
/// fails.
pub open spec fn parse_loop(tokens: Seq<SpecToken>, i: int, acc: Seq<SpecOperation>) -> Result<
    Seq<SpecOperation>,
    SpecError,
>
    decreases tokens.len() - i,
    when 0 <= i
    via parse_loop_decreases
{
    if i >= tokens.len() {
        Result::Ok(acc)
    } else {
        let t = tokens[i];
        let v = t.value;
        if v is Whitespace {
            parse_loop(tokens, i + 1, acc)
        } else if v == kw_add() || v == kw_create() || v == kw_show() || v == kw_remove() {
            let rest = seq_from(tokens, i + 1);
            let k = op_token_count(rest);
            let sub = rest.take(k);
            let parsed = if v == kw_add() {
                spec_parse_add(t, sub)
            } else if v == kw_create() {
                spec_parse_create(t, sub)
            } else if v == kw_show() {
                spec_parse_show(t, sub)
            } else {
                spec_parse_remove(t, sub)
            };
            match parsed {
                Result::Ok(op) => parse_loop(tokens, i + k + 1, acc.push(op)),
                Result::Err(e) => Result::Err(e),
            }
        } else {
            Result::Err(
                SpecError {
                    operation_kind: "Unknown"@,
                    operation_token: t,
                    unexpected_token: Option::Some(t),
                    expected_tokens: Option::Some(self::model::spec_keywords()),
                    details: Option::Some("You must input an operation!"@),
                },
            )
        }
    }
}

#[via_fn]
proof fn parse_loop_decreases(tokens: Seq<SpecToken>, i: int, acc: Seq<SpecOperation>) {
    if 0 <= i < tokens.len() {
        lemma_op_token_count_bounds(seq_from(tokens, i + 1));
    }
}

/// What parsing a token stream gives: all its statements' operations in
/// order, or the first error.
pub open spec fn spec_parse(tokens: Seq<SpecToken>) -> Result<Seq<SpecOperation>, SpecError> {
    parse_loop(tokens, 0, Seq::empty())
}

pub fn parse_add(op_token: &Token, tokens: &[Token]) -> (r: Result<Operation, Error>)
    requires
        statement_slice(token_views(tokens@)),
    ensures
        ({
            let out = spec_parse_add(op_token@, token_views(tokens@));
            match r {
                Result::Ok(op) => out == Result::<SpecOperation, SpecError>::Ok(op@),
                Result::Err(e) => out == Result::<SpecOperation, SpecError>::Err(e@),
            }
        }),
{
    let ghost toks = token_views(tokens@);
    let n = tokens.len();
    let to_terms = to_terminators();
    match parse_list(tokens, to_terms.as_slice()) {
        Result::Err(e) => Result::Err(
            get_parse_list_error_handler_generator(
                OperationAdd::keyword(),
                op_token,
                to_terms.as_slice(),
                "name",
                e,
            ),
        ),
        Result::Ok((names, i)) => {
            proof {
                lemma_parse_list_parsed(toks, seq![linker_to()]);
            }
            let start2 = if i < n {
                i + 1
            } else {
                n
            };
            let rest = slice_subrange(tokens, start2, n);
            proof {
                lemma_token_views_subrange(tokens@, start2 as int, n as int);
                assert(token_views(rest@) =~= seq_from(toks, i + 1));
            }
            let terms = terminators();
            match parse_list(rest, terms.as_slice()) {
                Result::Err(e) => Result::Err(
                    get_parse_list_error_handler_generator(
                        OperationAdd::keyword(),
                        op_token,
                        terms.as_slice(),
                        "department",
                        e,
                    ),
                ),
                Result::Ok((departments, j)) => {
                    proof {
                        lemma_parse_list_parsed(token_views(rest@), spec_terminators());
                        assert(rest@.len() > 0);
                    }
                    let hstart = start2 + j;
                    let hrest = slice_subrange(tokens, hstart, n);
                    proof {
                        lemma_token_views_subrange(tokens@, hstart as int, n as int);
                        assert(token_views(hrest@) =~= seq_from(toks, i + j + 1));
                        if (hstart as int) < n {
                            assert(spec_terminators().contains(toks[hstart as int].value));
                            assert(hstart == n - 1);
                        }
                        assert(hrest@.len() <= 1);
                    }
                    let op = Operation::Add(
                        OperationAdd::new(departments, names, Modifier::Plain),
                    );
                    handle_terminator(hrest, op, op_token)
                },
            }
        },
    }
}

pub fn parse_create(op_token: &Token, tokens: &[Token]) -> (r: Result<Operation, Error>)
    requires
        statement_slice(token_views(tokens@)),
    ensures
        ({
            let out = spec_parse_create(op_token@, token_views(tokens@));
            match r {
                Result::Ok(op) => out == Result::<SpecOperation, SpecError>::Ok(op@),
                Result::Err(e) => out == Result::<SpecOperation, SpecError>::Err(e@),
            }
        }),
{
    let ghost toks = token_views(tokens@);
    let n = tokens.len();
    let terms = terminators();
    match parse_list(tokens, terms.as_slice()) {
        Result::Err(e) => Result::Err(
            get_parse_list_error_handler_generator(
                OperationCreate::keyword(),
                op_token,
                terms.as_slice(),
                "department",
                e,
            ),
        ),
        Result::Ok((departments, i)) => {
            proof {
                lemma_parse_list_parsed(toks, spec_terminators());
            }
            let hrest = slice_subrange(tokens, i, n);
            proof {
                lemma_token_views_subrange(tokens@, i as int, n as int);
                assert(token_views(hrest@) =~= seq_from(toks, i as int));
                if (i as int) < n {
                    assert(i == n - 1);
                }
                assert(hrest@.len() <= 1);
            }
            let op = Operation::Create(OperationCreate::new(departments, Modifier::Plain));
            handle_terminator(hrest, op, op_token)
        },
    }
}

pub fn parse_show(op_token: &Token, tokens: &[Token]) -> (r: Result<Operation, Error>)
    requires
        statement_slice(token_views(tokens@)),
    ensures
        ({
            let out = spec_parse_show(op_token@, token_views(tokens@));
            match r {
                Result::Ok(op) => out == Result::<SpecOperation, SpecError>::Ok(op@),
                Result::Err(e) => out == Result::<SpecOperation, SpecError>::Err(e@),
            }
        }),
{
    let ghost toks = token_views(tokens@);
    let n = tokens.len();
    let terms = terminators();
    match parse_list(tokens, terms.as_slice()) {
        Result::Err(e) => Result::Err(
            get_parse_list_error_handler_generator(
                OperationShow::keyword(),
                op_token,
                terms.as_slice(),
                "department",
                e,
            ),
        ),
        Result::Ok((departments, i)) => {
            proof {
                lemma_parse_list_parsed(toks, spec_terminators());
            }
            let hrest = slice_subrange(tokens, i, n);
            proof {
                lemma_token_views_subrange(tokens@, i as int, n as int);
                assert(token_views(hrest@) =~= seq_from(toks, i as int));
                if (i as int) < n {
                    assert(i == n - 1);
                }
                assert(hrest@.len() <= 1);
            }
            let op = Operation::Show(OperationShow::new(departments, false));
            handle_terminator(hrest, op, op_token)
        },
    }
}

pub fn parse_remove(op_token: &Token, tokens: &[Token]) -> (r: Result<Operation, Error>)
    requires
        statement_slice(token_views(tokens@)),
    ensures
        ({
            let out = spec_parse_remove(op_token@, token_views(tokens@));
            match r {
                Result::Ok(op) => out == Result::<SpecOperation, SpecError>::Ok(op@),
                Result::Err(e) => out == Result::<SpecOperation, SpecError>::Err(e@),
            }
        }),
{
    let ghost toks = token_views(tokens@);
    let n = tokens.len();
    let list_terms = self::constants::remove_list_terminators();
    match parse_list(tokens, list_terms.as_slice()) {
        Result::Err(e) => {
            let terms = terminators();
            Result::Err(
                get_parse_list_error_handler_generator(
                    OperationRemove::keyword(),
                    op_token,
                    terms.as_slice(),
                    "name or department",
                    e,
                ),
            )
        },
        Result::Ok((first, i)) => {
            proof {
                lemma_parse_list_parsed(toks, spec_remove_list_terminators());
            }
            let start2 = if i < n {
                i + 1
            } else {
                n
            };
            let rest = slice_subrange(tokens, start2, n);
            proof {
                lemma_token_views_subrange(tokens@, start2 as int, n as int);
                assert(token_views(rest@) =~= seq_from(toks, i + 1));
            }
            let terms = terminators();
            match parse_list(rest, terms.as_slice()) {
                Result::Ok((second, j)) => {
                    proof {
                        lemma_parse_list_parsed(token_views(rest@), spec_terminators());
                        assert(rest@.len() > 0);
                    }
                    let hstart = start2 + j;
                    let hrest = slice_subrange(tokens, hstart, n);
                    proof {
                        lemma_token_views_subrange(tokens@, hstart as int, n as int);
                        assert(token_views(hrest@) =~= seq_from(toks, i + j + 1));
                        if (hstart as int) < n {
                            assert(spec_terminators().contains(toks[hstart as int].value));
                            assert(hstart == n - 1);
                        }
                        assert(hrest@.len() <= 1);
                    }
                    let op = Operation::Remove(OperationRemove::new(second, first, false));
                    handle_terminator(hrest, op, op_token)
                },
                Result::Err(e) => {
                    let from_more = if i < n {
                        let t = slice_index_get(tokens, i);
                        tv_is_word(&t.value, "from") && i + 1 < n
                    } else {
                        false
                    };
                    if from_more {
                        Result::Err(
                            get_parse_list_error_handler_generator(
                                OperationRemove::keyword(),
                                op_token,
                                terms.as_slice(),
                                "department",
                                e,
                            ),
                        )
                    } else {
                        let hrest = slice_subrange(tokens, i, n);
                        proof {
                            lemma_token_views_subrange(tokens@, i as int, n as int);
                            assert(token_views(hrest@) =~= seq_from(toks, i as int));
                            assert(spec_remove_list_terminators()[0] == linker_from());
                            if (i as int) < n {
                                if toks[i as int].value == linker_from() {
                                    assert(i + 1 >= n);
                                } else {
                                    assert(spec_terminators().contains(toks[i as int].value))
                                        by {
                                        assert(spec_remove_list_terminators().contains(
                                            toks[i as int].value,
                                        ));
                                        assert(spec_remove_list_terminators()[1]
                                            == self::model::sep_plain());
                                        assert(spec_remove_list_terminators()[2]
                                            == self::model::sep_overwrite());
                                        assert(spec_remove_list_terminators()[3]
                                            == self::model::sep_fail_silently());
                                        assert(spec_terminators()[0] == self::model::sep_plain());
                                        assert(spec_terminators()[1]
                                            == self::model::sep_overwrite());
                                        assert(spec_terminators()[2]
                                            == self::model::sep_fail_silently());
                                    }
                                    assert(i == n - 1);
                                }
                            }
                            assert(hrest@.len() <= 1);
                        }
                        let empty_names: Vec<String> = Vec::new();
                        proof {
                            assert(empty_names.deep_view() =~= Seq::<Seq<char>>::empty());
                        }
                        let op = Operation::Remove(
                            OperationRemove::new(first, empty_names, false),
                        );
                        handle_terminator(hrest, op, op_token)
                    }
                },
            }
        },
    }
}

// ---------------------------------------------------------------------------
// The public parser
// ---------------------------------------------------------------------------
/// Parses a token stream into its operations, or returns the first error.
pub fn parse(tokens: Vec<Token>) -> (r: Result<Vec<Operation>, Error>)
    ensures
        match r {
            Result::Ok(ops) => spec_parse(token_views(tokens@)) == Result::<
                Seq<SpecOperation>,
                SpecError,
            >::Ok(op_views(ops@)),
            Result::Err(e) => spec_parse(token_views(tokens@)) == Result::<
                Seq<SpecOperation>,
                SpecError,
            >::Err(e@),
        },
{
    let ghost toks = token_views(tokens@);
    let mut res: Vec<Operation> = Vec::new();
    let mut i: usize = 0;
    proof {
        assert(op_views(res@) =~= Seq::<SpecOperation>::empty());
    }
    while i < tokens.len()
        invariant
            toks == token_views(tokens@),
            toks.len() == tokens@.len(),
            0 <= i <= toks.len(),
            parse_loop(toks, 0, Seq::empty()) == parse_loop(toks, i as int, op_views(res@)),
        decreases toks.len() - i,
    {
        let n = tokens.len();
        let token = &tokens[i];
        proof {
            assert(token@ == toks[i as int]);
        }
        let is_add = tv_is_word(&token.value, "Add");
        let is_create = tv_is_word(&token.value, "Create");
        let is_show = tv_is_word(&token.value, "Show");
        let is_remove = tv_is_word(&token.value, "Remove");
        if matches!(token.value, TokenValue::Whitespace) {
            proof {
                assert(parse_loop(toks, i as int, op_views(res@)) == parse_loop(
                    toks,
                    i as int + 1,
                    op_views(res@),
                ));
            }
            i = i + 1;
        } else if is_add || is_create || is_show || is_remove {
            let all = slice_subrange(tokens.as_slice(), i + 1, n);
            proof {
                lemma_token_views_subrange(tokens@, i as int + 1, n as int);
                assert(token_views(all@) =~= seq_from(toks, i as int + 1));
            }
            let op_tokens = get_operation_tokens(all);
            let k = op_tokens.len();
            proof {
                lemma_op_token_count_bounds(token_views(all@));
                assert(op_tokens@ == all@.subrange(0, op_token_count(token_views(all@))));
                lemma_token_views_subrange(all@, 0, op_token_count(token_views(all@)));
                assert(token_views(op_tokens@) =~= seq_from(toks, i as int + 1).take(
                    op_token_count(seq_from(toks, i as int + 1)),
                ));
                lemma_op_tokens_statement_slice(token_views(all@));
            }
            let parsed = if is_add {
                parse_add(token, op_tokens)
            } else if is_create {
                parse_create(token, op_tokens)
            } else if is_show {
                parse_show(token, op_tokens)
            } else {
                parse_remove(token, op_tokens)
            };
            match parsed {
                Result::Ok(op) => {
                    let ghost prev_ops = op_views(res@);
                    res.push(op);
                    proof {
                        assert(op_views(res@) =~= prev_ops.push(op@));
                        assert(parse_loop(toks, i as int, prev_ops) == parse_loop(
                            toks,
                            i as int + k as int + 1,
                            op_views(res@),
                        ));
                    }
                    i = i + k + 1;
                },
                Result::Err(e) => {
                    proof {
                        assert(parse_loop(toks, i as int, op_views(res@)) == Result::<
                            Seq<SpecOperation>,
                            SpecError,
                        >::Err(e@));
                    }
                    return Result::Err(e);
                },
            }
        } else {
            let kws = keywords();
            let e = Error::new(
                "Unknown",
                token_clone(token),
                Option::Some(token_clone(token)),
                Option::Some(kws),
                Option::Some("You must input an operation!".to_owned()),
            );
            proof {
                assert(parse_loop(toks, i as int, op_views(res@)) == Result::<
                    Seq<SpecOperation>,
                    SpecError,
                >::Err(e@));
            }
            return Result::Err(e);
        }
    }
    Result::Ok(res)
}

} // verus!

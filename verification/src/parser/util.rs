use super::constants::{
    contains_tv, expected_list_tokens, is_reserved, terminators, tv_is_punct, tv_is_word,
};
use super::error::{opt_token_view, spec_list_error, Error, SpecError};
use super::model::{
    dedup_concat, elem_scan, lemma_elem_scan_some, linker_and, list_loop, op_token_count,
    opt_tv_view, sep_fail_silently, sep_overwrite, sep_values, spec_parse_list, spec_reserved,
    spec_terminators, SpecElemScan, SpecListExit, SpecListOutcome,
};
use crate::lexer::{token_clone, token_eq, tv_clone, tv_views, token_views, SpecToken, SpecTokenValue, Token, TokenValue};
use crate::operation::{spec_op_keyword, spec_set_modifier, Modifier, Operation, SpecOperation};
use vstd::prelude::*;
use vstd::slice::{slice_index_get, slice_subrange};

verus! {

// ---------------------------------------------------------------------------
// Terminator and modifier resolution
// ---------------------------------------------------------------------------
/// The terminators an operation kind accepts: `!` only where overwriting is
/// meaningful.
pub open spec fn spec_terminators_for(op: SpecOperation) -> Seq<SpecTokenValue> {
    match op {
        SpecOperation::Create(_) | SpecOperation::Add(_) => spec_terminators(),
        SpecOperation::Show(_) | SpecOperation::Remove(_) => seq![
            super::model::sep_plain(),
            sep_fail_silently(),
        ],
        SpecOperation::Unknown => Seq::empty(),
    }
}

/// How the statement's one leftover token finishes the operation: `.`
/// leaves it as it is, `!` or `?` selects a modifier, refused where the kind
/// does not accept it, and anything else (nothing left, or a token that is
/// no terminator) is a missing terminator.
pub open spec fn spec_handle_terminator(
    tokens: Seq<SpecToken>,
    op: SpecOperation,
    op_token: SpecToken,
) -> Result<SpecOperation, SpecError> {
    let kw = spec_op_keyword(op);
    let terms = spec_terminators_for(op);
    if tokens.len() == 0 {
        Result::Err(
            SpecError {
                operation_kind: kw,
                operation_token: op_token,
                unexpected_token: Option::None,
                expected_tokens: Option::Some(terms),
                details: Option::Some("You didn't terminate your operation!"@),
            },
        )
    } else {
        let v = tokens[0].value;
        if v == sep_overwrite() || v == sep_fail_silently() {
            let m = if v == sep_overwrite() {
                Modifier::Overwrite
            } else {
                Modifier::FailSilently
            };
            match spec_set_modifier(op, m) {
                Option::Some(o) => Result::Ok(o),
                Option::None => Result::Err(
                    SpecError {
                        operation_kind: kw,
                        operation_token: op_token,
                        unexpected_token: Option::Some(tokens[0]),
                        expected_tokens: Option::Some(terms),
                        details: Option::Some(
                            crate::lexer::spec_tv_display(v)
                                + " is not a valid modifier for the operation"@,
                        ),
                    },
                ),
            }
        } else if v == super::model::sep_plain() {
            Result::Ok(op)
        } else {
            Result::Err(
                SpecError {
                    operation_kind: kw,
                    operation_token: op_token,
                    unexpected_token: Option::Some(tokens[0]),
                    expected_tokens: Option::Some(terms),
                    details: Option::Some("You didn't terminate your operation!"@),
                },
            )
        }
    }
}

fn terminators_for(op: &Operation) -> (r: Vec<TokenValue>)
    ensures
        tv_views(r@) == spec_terminators_for(op@),
{
    match op {
        Operation::Create(_) | Operation::Add(_) => terminators(),
        Operation::Show(_) | Operation::Remove(_) => {
            let mut r: Vec<TokenValue> = Vec::new();
            r.push(TokenValue::Punctuation(".".to_owned()));
            r.push(TokenValue::Punctuation("?".to_owned()));
            proof {
                assert(tv_views(r@) =~= spec_terminators_for(op@));
            }
            r
        },
        Operation::Unknown => {
            let r: Vec<TokenValue> = Vec::new();
            proof {
                assert(tv_views(r@) =~= spec_terminators_for(op@));
            }
            r
        },
    }
}

/// Resolves the tokens left after a statement's lists into the operation's
/// modifier. The statement slicing leaves at most one token here.
pub fn handle_terminator(tokens: &[Token], op: Operation, op_token: &Token) -> (r: Result<
    Operation,
    Error,
>)
    requires
        !(op@ is Unknown),
        tokens@.len() <= 1,
    ensures
        match r {
            Result::Ok(o) => spec_handle_terminator(token_views(tokens@), op@, op_token@)
                == Result::<SpecOperation, SpecError>::Ok(o@),
            Result::Err(e) => spec_handle_terminator(token_views(tokens@), op@, op_token@)
                == Result::<SpecOperation, SpecError>::Err(e@),
        },
{
    let kw = op.keyword();
    let terms = terminators_for(&op);
    if tokens.len() == 0 {
        Result::Err(
            Error::new(
                kw,
                token_clone(op_token),
                Option::None,
                Option::Some(terms),
                Option::Some("You didn't terminate your operation!".to_owned()),
            ),
        )
    } else {
        let t = slice_index_get(tokens, 0);
        proof {
            assert(t@ == token_views(tokens@)[0]);
        }
        let is_overwrite = tv_is_punct(&t.value, "!");
        let is_fail_silently = tv_is_punct(&t.value, "?");
        if is_overwrite || is_fail_silently {
            let m = if is_overwrite {
                Modifier::Overwrite
            } else {
                Modifier::FailSilently
            };
            match op.set_modifier(m) {
                Option::Some(o) => Result::Ok(o),
                Option::None => {
                    let mut details = t.value.render();
                    details.append(" is not a valid modifier for the operation");
                    Result::Err(
                        Error::new(
                            kw,
                            token_clone(op_token),
                            Option::Some(token_clone(t)),
                            Option::Some(terms),
                            Option::Some(details),
                        ),
                    )
                },
            }
        } else if tv_is_punct(&t.value, ".") {
            Result::Ok(op)
        } else {
            Result::Err(
                Error::new(
                    kw,
                    token_clone(op_token),
                    Option::Some(token_clone(t)),
                    Option::Some(terms),
                    Option::Some("You didn't terminate your operation!".to_owned()),
                ),
            )
        }
    }
}

// ---------------------------------------------------------------------------
// One list element
// ---------------------------------------------------------------------------
struct ListElement {
    first_index: usize,
    last_index: usize,
    consumed_count: usize,
    is_last_consumed_terminator: bool,
}

fn get_list_element_tokens(tokens: &[Token], terminators: &[TokenValue], start: usize) -> (r:
    Result<ListElement, usize>)
    requires
        start < tokens@.len(),
    ensures
        ({
            let sc = elem_scan(
                token_views(tokens@),
                tv_views(terminators@),
                start as int,
                Option::None,
                start as int,
            );
            match r {
                Result::Ok(elem) => sc == (SpecElemScan::Elem {
                    first: elem.first_index as int,
                    last: elem.last_index as int,
                    stop: elem.consumed_count as int,
                    at_terminator: elem.is_last_consumed_terminator,
                }),
                Result::Err(at) => sc == (SpecElemScan::Bad { at: at as int }),
            }
        }),
{
    let ghost toks = token_views(tokens@);
    let ghost terms = tv_views(terminators@);
    let mut first: Option<usize> = Option::None;
    let mut last: usize = start;
    let mut i: usize = start;
    while i < tokens.len()
        invariant
            toks == token_views(tokens@),
            terms == tv_views(terminators@),
            toks.len() == tokens@.len(),
            start <= i <= toks.len(),
            elem_scan(toks, terms, start as int, Option::None, start as int) == elem_scan(
                toks,
                terms,
                i as int,
                match first {
                    Option::Some(f) => Option::Some(f as int),
                    Option::None => Option::None,
                },
                last as int,
            ),
        decreases toks.len() - i,
    {
        let t = slice_index_get(tokens, i);
        proof {
            assert(t@ == toks[i as int]);
        }
        if tv_is_punct(&t.value, ",") || tv_is_word(&t.value, "and") {
            let f = match first {
                Option::Some(f) => f,
                Option::None => 0,
            };
            return Result::Ok(
                ListElement {
                    first_index: f,
                    last_index: last,
                    consumed_count: i,
                    is_last_consumed_terminator: false,
                },
            );
        } else if contains_tv(terminators, &t.value) {
            let f = match first {
                Option::Some(f) => f,
                Option::None => 0,
            };
            return Result::Ok(
                ListElement {
                    first_index: f,
                    last_index: last,
                    consumed_count: i,
                    is_last_consumed_terminator: true,
                },
            );
        } else if matches!(t.value, TokenValue::Whitespace) {
            i = i + 1;
        } else if matches!(t.value, TokenValue::Word(_)) {
            if is_reserved(&t.value) {
                return Result::Err(i);
            }
            match first {
                Option::Some(_) => {
                    last = i;
                },
                Option::None => {
                    first = Option::Some(i);
                },
            }
            i = i + 1;
        } else {
            return Result::Err(i);
        }
    }
    let f = match first {
        Option::Some(f) => f,
        Option::None => 0,
    };
    Result::Ok(
        ListElement {
            first_index: f,
            last_index: last,
            consumed_count: tokens.len(),
            is_last_consumed_terminator: false,
        },
    )
}

/// The text of one element: each kept token's text in order, a token equal
/// to its predecessor skipped.
fn get_string_from_tokens(tokens: &[Token], first: usize, last: usize) -> (r: String)
    requires
        first <= last < tokens@.len(),
    ensures
        r@ == dedup_concat(token_views(tokens@).subrange(first as int, last as int + 1)),
{
    let ghost sub = token_views(tokens@).subrange(first as int, last as int + 1);
    let n = tokens.len();
    let mut out = String::new();
    let t0 = slice_index_get(tokens, first);
    out.append(t0.value.get());
    proof {
        assert(sub.take(1) =~= seq![sub[0]]);
        assert(sub[0] == token_views(tokens@)[first as int]);
        assert(out@ =~= dedup_concat(sub.take(1)));
    }
    let mut k: usize = first + 1;
    while k <= last
        invariant
            n == tokens@.len(),
            first <= last < tokens@.len(),
            sub == token_views(tokens@).subrange(first as int, last as int + 1),
            sub.len() == last - first + 1,
            first + 1 <= k <= last + 1,
            out@ == dedup_concat(sub.take(k - first)),
        decreases last + 1 - k,
    {
        let prev = slice_index_get(tokens, k - 1);
        let cur = slice_index_get(tokens, k);
        let same = token_eq(cur, prev);
        if !same {
            out.append(cur.value.get());
        }
        proof {
            let m = (k - first) as int + 1;
            assert(sub.take(m).drop_last() =~= sub.take(m - 1));
            assert(sub.take(m).last() == sub[m - 1]);
            assert(sub[m - 1] == token_views(tokens@)[k as int]);
            assert(sub[m - 2] == token_views(tokens@)[k - 1]);
            assert(cur@ == token_views(tokens@)[k as int]);
            assert(prev@ == token_views(tokens@)[k - 1]);
            assert(out@ =~= dedup_concat(sub.take(m)));
        }
        k = k + 1;
    }
    proof {
        assert(sub.take(sub.len() as int) =~= sub);
    }
    out
}

// ---------------------------------------------------------------------------
// The list parser
// ---------------------------------------------------------------------------
/// Why a list parse failed: the offending token, if one was seen, and
/// whether any elements had already been read (an empty list is reported
/// differently from a malformed one).
#[derive(Clone, Debug)]
pub struct ParseListError {
    pub unexpected_token: Option<Token>,
    pub has_parsed_elements: bool,
}

/// Parses a comma/"and"-separated list of elements up to (not including) a
/// token of `terminators`, or to the end of the stream, returning the
/// elements and how many tokens were consumed.
pub fn parse_list(tokens: &[Token], terminators: &[TokenValue]) -> (r: Result<
    (Vec<String>, usize),
    ParseListError,
>)
    ensures
        ({
            let out = spec_parse_list(token_views(tokens@), tv_views(terminators@));
            match r {
                Result::Ok(p) => out == (SpecListOutcome::Parsed {
                    elems: p.0.deep_view(),
                    consumed: p.1 as int,
                }),
                Result::Err(e) => out == (SpecListOutcome::Failed {
                    unexpected: opt_token_view(e.unexpected_token),
                    has_elems: e.has_parsed_elements,
                }),
            }
        }),
{
    let ghost toks = token_views(tokens@);
    let ghost terms = tv_views(terminators@);
    let mut elements: Vec<String> = Vec::new();
    let mut last_linker: Option<TokenValue> = Option::None;
    let mut i: usize = 0;
    proof {
        assert(elements.deep_view() =~= Seq::<Seq<char>>::empty());
    }
    while i < tokens.len()
        invariant
            toks == token_views(tokens@),
            terms == tv_views(terminators@),
            toks.len() == tokens@.len(),
            0 <= i <= toks.len(),
            list_loop(toks, terms, 0, Seq::empty(), Option::None) == list_loop(
                toks,
                terms,
                i as int,
                elements.deep_view(),
                opt_tv_view(last_linker),
            ),
        decreases toks.len() - i,
    {
        let t = slice_index_get(tokens, i);
        proof {
            assert(t@ == toks[i as int]);
        }
        if matches!(t.value, TokenValue::Whitespace) {
            proof {
                assert(list_loop(toks, terms, i as int, elements.deep_view(), opt_tv_view(last_linker))
                    == list_loop(
                    toks,
                    terms,
                    i as int + 1,
                    elements.deep_view(),
                    opt_tv_view(last_linker),
                ));
            }
            i = i + 1;
        } else if contains_tv(terminators, &t.value) {
            proof {
                assert(list_loop(toks, terms, i as int, elements.deep_view(), opt_tv_view(last_linker))
                    == (SpecListExit::Stopped { at: i as int, elems: elements.deep_view() }));
            }
            if elements.len() == 0 {
                return Result::Err(
                    ParseListError {
                        unexpected_token: Option::Some(token_clone(t)),
                        has_parsed_elements: false,
                    },
                );
            } else {
                return Result::Ok((elements, i));
            }
        } else if tv_is_word(&t.value, "and") {
            if elements.len() == 0 {
                proof {
                    assert(list_loop(toks, terms, i as int, elements.deep_view(), opt_tv_view(last_linker))
                        == (SpecListExit::Stopped { at: i as int, elems: elements.deep_view() }));
                }
                return Result::Err(
                    ParseListError {
                        unexpected_token: Option::Some(token_clone(t)),
                        has_parsed_elements: false,
                    },
                );
            }
            let after_comma = match &last_linker {
                Option::Some(lv) => tv_is_punct(lv, ","),
                Option::None => false,
            };
            if after_comma {
                proof {
                    assert(opt_tv_view(last_linker) == Option::Some(sep_values()));
                    assert(list_loop(toks, terms, i as int, elements.deep_view(), opt_tv_view(last_linker))
                        == list_loop(
                        toks,
                        terms,
                        i as int + 1,
                        elements.deep_view(),
                        opt_tv_view(last_linker),
                    ));
                }
                i = i + 1;
            } else {
                proof {
                    assert(opt_tv_view(last_linker) != Option::Some(sep_values()));
                }
                return Result::Err(
                    ParseListError {
                        unexpected_token: Option::Some(token_clone(t)),
                        has_parsed_elements: true,
                    },
                );
            }
        } else if matches!(t.value, TokenValue::Word(_)) {
            if is_reserved(&t.value) {
                return Result::Err(
                    ParseListError {
                        unexpected_token: Option::Some(token_clone(t)),
                        has_parsed_elements: true,
                    },
                );
            }
            proof {
                assert(spec_reserved()[4] == linker_and());
                assert(spec_reserved().contains(linker_and()));
                assert(elem_scan(toks, terms, i as int, Option::None, i as int) == elem_scan(
                    toks,
                    terms,
                    i as int + 1,
                    Option::Some(i as int),
                    i as int,
                ));
                lemma_elem_scan_some(toks, terms, i as int + 1, i as int, i as int);
            }
            match get_list_element_tokens(tokens, terminators, i) {
                Result::Ok(elem) => {
                    let ghost prev_elems = elements.deep_view();
                    let ghost prev_linker = opt_tv_view(last_linker);
                    let ghost prev_i = i as int;
                    let s = get_string_from_tokens(tokens, elem.first_index, elem.last_index);
                    elements.push(s);
                    proof {
                        assert(elements.deep_view() =~= prev_elems.push(
                            dedup_concat(
                                toks.subrange(
                                    elem.first_index as int,
                                    elem.last_index as int + 1,
                                ),
                            ),
                        ));
                    }
                    if elem.is_last_consumed_terminator {
                        proof {
                            assert(list_loop(toks, terms, prev_i, prev_elems, prev_linker)
                                == (SpecListExit::Stopped {
                                at: elem.consumed_count as int,
                                elems: elements.deep_view(),
                            }));
                        }
                        return Result::Ok((elements, elem.consumed_count));
                    } else if elem.consumed_count >= tokens.len() {
                        // the stream ran out right after this element: the
                        // list ends normally with everything consumed
                        proof {
                            assert(list_loop(toks, terms, prev_i, prev_elems, prev_linker)
                                == (SpecListExit::Stopped {
                                at: toks.len() as int,
                                elems: elements.deep_view(),
                            }));
                        }
                        return Result::Ok((elements, tokens.len()));
                    } else {
                        let sept = slice_index_get(tokens, elem.consumed_count);
                        last_linker = Option::Some(tv_clone(&sept.value));
                        proof {
                            assert(sept@ == toks[elem.consumed_count as int]);
                            assert(list_loop(toks, terms, prev_i, prev_elems, prev_linker)
                                == list_loop(
                                toks,
                                terms,
                                elem.consumed_count as int + 1,
                                elements.deep_view(),
                                opt_tv_view(last_linker),
                            ));
                        }
                        i = elem.consumed_count + 1;
                    }
                },
                Result::Err(at) => {
                    proof {
                        assert(list_loop(toks, terms, i as int, elements.deep_view(), opt_tv_view(last_linker))
                            == list_loop(
                            toks,
                            terms,
                            at as int,
                            elements.deep_view(),
                            opt_tv_view(last_linker),
                        ));
                    }
                    i = at;
                },
            }
        } else {
            return Result::Err(
                ParseListError {
                    unexpected_token: Option::Some(token_clone(t)),
                    has_parsed_elements: elements.len() > 0,
                },
            );
        }
    }
    proof {
        assert(list_loop(toks, terms, 0, Seq::empty(), Option::None) == (SpecListExit::Stopped {
            at: i as int,
            elems: elements.deep_view(),
        }));
    }
    if elements.len() == 0 {
        if tokens.len() == 0 {
            return Result::Err(
                ParseListError { unexpected_token: Option::None, has_parsed_elements: false },
            );
        } else {
            let lastt = slice_index_get(tokens, tokens.len() - 1);
            return Result::Err(
                ParseListError {
                    unexpected_token: Option::Some(token_clone(lastt)),
                    has_parsed_elements: false,
                },
            );
        }
    }
    Result::Ok((elements, i))
}

// ---------------------------------------------------------------------------
// Errors of the list parser, as operation errors
// ---------------------------------------------------------------------------
/// Turns a failed list parse into the operation's error, with the expected
/// tokens and an explanation that names the list (its elements' role) and
/// the token that broke it.
pub fn get_parse_list_error_handler_generator(
    op_keyword: &str,
    op_token: &Token,
    terminators: &[TokenValue],
    name: &str,
    err: ParseListError,
) -> (e: Error)
    ensures
        e@ == spec_list_error(
            op_keyword@,
            op_token@,
            tv_views(terminators@),
            name@,
            opt_token_view(err.unexpected_token),
            err.has_parsed_elements,
        ),
{
    if err.has_parsed_elements {
        let mut expected = expected_list_tokens();
        let mut i: usize = 0;
        while i < terminators.len()
            invariant
                0 <= i <= terminators@.len(),
                expected@.len() == 2 + i,
                tv_views(expected@) == super::error::spec_expected_list_tokens() + tv_views(
                    terminators@,
                ).take(i as int),
            decreases terminators@.len() - i,
        {
            let ghost prevx = expected@;
            expected.push(tv_clone(slice_index_get(terminators, i)));
            proof {
                assert(tv_views(expected@) =~= tv_views(prevx).push(
                    tv_views(terminators@)[i as int],
                ));
                assert(tv_views(expected@) =~= super::error::spec_expected_list_tokens()
                    + tv_views(terminators@).take(i as int + 1));
            }
            i = i + 1;
        }
        proof {
            assert(tv_views(terminators@).take(terminators@.len() as int) =~= tv_views(
                terminators@,
            ));
        }
        let mut details = String::new();
        let mut reserved_case = false;
        match &err.unexpected_token {
            Option::Some(t) => {
                if is_reserved(&t.value) {
                    reserved_case = true;
                    details.append("Can't use ");
                    let shown = t.value.render();
                    details.append(shown.as_str());
                    details.append(" in lists, it's reserved!");
                }
            },
            Option::None => {},
        }
        if !reserved_case {
            details.append("The ");
            details.append(name);
            details.append(" list you entered is invalid!");
        }
        let e = Error::new(
            op_keyword,
            token_clone(op_token),
            err.unexpected_token,
            Option::Some(expected),
            Option::Some(details),
        );
        proof {
            assert(e@ =~~= spec_list_error(
                op_keyword@,
                op_token@,
                tv_views(terminators@),
                name@,
                opt_token_view(err.unexpected_token),
                err.has_parsed_elements,
            ));
        }
        e
    } else {
        let expected = expected_list_tokens();
        let mut details = String::new();
        details.append("You must specify at least one ");
        details.append(name);
        match &err.unexpected_token {
            Option::Some(t) => {
                details.append(" before ");
                if contains_tv(terminators, &t.value) {
                    details.append("list terminator");
                } else {
                    let ts = super::constants::terminators();
                    if contains_tv(ts.as_slice(), &t.value) {
                        details.append("operation terminator");
                    } else {
                        details.append("list element separator");
                    }
                }
                details.append(" ");
                let shown = t.value.render();
                details.append(shown.as_str());
            },
            Option::None => {},
        }
        let e = Error::new(
            op_keyword,
            token_clone(op_token),
            err.unexpected_token,
            Option::Some(expected),
            Option::Some(details),
        );
        proof {
            assert(e@ =~~= spec_list_error(
                op_keyword@,
                op_token@,
                tv_views(terminators@),
                name@,
                opt_token_view(err.unexpected_token),
                err.has_parsed_elements,
            ));
        }
        e
    }
}

// ---------------------------------------------------------------------------
// Statement slicing
// ---------------------------------------------------------------------------
pub(crate) proof fn lemma_op_token_count_prefix(toks: Seq<SpecToken>, m: int)
    requires
        0 <= m <= toks.len(),
        forall|k: int|
            0 <= k < m ==> !spec_terminators().contains((#[trigger] toks[k]).value),
    ensures
        m == toks.len() ==> op_token_count(toks) == toks.len(),
        m < toks.len() && spec_terminators().contains(toks[m].value) ==> op_token_count(toks) == m
            + 1,
    decreases m,
{
    if m == 0 {
    } else {
        lemma_op_token_count_prefix(toks.drop_first(), m - 1);
        assert(forall|k: int|
            0 <= k < m - 1 ==> !spec_terminators().contains(
                (#[trigger] toks.drop_first()[k]).value,
            ));
        if m < toks.len() {
            assert(toks.drop_first()[m - 1] == toks[m]);
        }
    }
}

/// The tokens of one statement: everything up to and including the first
/// operation terminator, or all of them when none follows.
pub fn get_operation_tokens<'a>(tokens: &'a [Token]) -> (r: &'a [Token])
    ensures
        r@ == tokens@.subrange(0, op_token_count(token_views(tokens@))),
        r@.len() == op_token_count(token_views(tokens@)),
{
    let ghost toks = token_views(tokens@);
    let terms = terminators();
    let mut i: usize = 0;
    while i < tokens.len()
        invariant
            toks == token_views(tokens@),
            toks.len() == tokens@.len(),
            tv_views(terms@) == spec_terminators(),
            0 <= i <= toks.len(),
            forall|k: int|
                0 <= k < i ==> !spec_terminators().contains((#[trigger] toks[k]).value),
        decreases toks.len() - i,
    {
        let t = slice_index_get(tokens, i);
        proof {
            assert(t@ == toks[i as int]);
        }
        if contains_tv(terms.as_slice(), &t.value) {
            proof {
                lemma_op_token_count_prefix(toks, i as int);
            }
            let r = slice_subrange(tokens, 0, i + 1);
            return r;
        }
        i = i + 1;
    }
    proof {
        lemma_op_token_count_prefix(toks, toks.len() as int);
        assert(tokens@.subrange(0, toks.len() as int) =~= tokens@);
    }
    tokens
}

} // verus!

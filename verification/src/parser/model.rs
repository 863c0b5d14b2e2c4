use crate::lexer::{tv_text, SpecToken, SpecTokenValue, TokenValue};
use vstd::prelude::*;

verus! {

// ---------------------------------------------------------------------------
// The reserved vocabulary
// ---------------------------------------------------------------------------
pub open spec fn kw_add() -> SpecTokenValue {
    SpecTokenValue::Word("Add"@)
}

pub open spec fn kw_create() -> SpecTokenValue {
    SpecTokenValue::Word("Create"@)
}

pub open spec fn kw_remove() -> SpecTokenValue {
    SpecTokenValue::Word("Remove"@)
}

pub open spec fn kw_show() -> SpecTokenValue {
    SpecTokenValue::Word("Show"@)
}

pub open spec fn linker_and() -> SpecTokenValue {
    SpecTokenValue::Word("and"@)
}

pub open spec fn linker_to() -> SpecTokenValue {
    SpecTokenValue::Word("to"@)
}

pub open spec fn linker_from() -> SpecTokenValue {
    SpecTokenValue::Word("from"@)
}

pub open spec fn sep_plain() -> SpecTokenValue {
    SpecTokenValue::Punctuation("."@)
}

pub open spec fn sep_overwrite() -> SpecTokenValue {
    SpecTokenValue::Punctuation("!"@)
}

pub open spec fn sep_fail_silently() -> SpecTokenValue {
    SpecTokenValue::Punctuation("?"@)
}

pub open spec fn sep_values() -> SpecTokenValue {
    SpecTokenValue::Punctuation(","@)
}

pub open spec fn spec_keywords() -> Seq<SpecTokenValue> {
    seq![kw_add(), kw_create(), kw_remove(), kw_show()]
}

pub open spec fn spec_reserved() -> Seq<SpecTokenValue> {
    seq![kw_add(), kw_create(), kw_remove(), kw_show(), linker_and(), linker_to(), linker_from()]
}

pub open spec fn spec_terminators() -> Seq<SpecTokenValue> {
    seq![sep_plain(), sep_overwrite(), sep_fail_silently()]
}

pub open spec fn spec_remove_list_terminators() -> Seq<SpecTokenValue> {
    seq![linker_from(), sep_plain(), sep_overwrite(), sep_fail_silently()]
}

pub open spec fn opt_tv_view(o: Option<TokenValue>) -> Option<SpecTokenValue> {
    match o {
        Option::Some(v) => Option::Some(v@),
        Option::None => Option::None,
    }
}

/// `tokens` from index `k` on; empty when `k` runs past the end.
pub open spec fn seq_from(tokens: Seq<SpecToken>, k: int) -> Seq<SpecToken> {
    if 0 <= k <= tokens.len() {
        tokens.skip(k)
    } else if k > tokens.len() {
        Seq::empty()
    } else {
        tokens
    }
}

// ---------------------------------------------------------------------------
// One list element
// ---------------------------------------------------------------------------
pub enum SpecElemScan {
    Elem { first: int, last: int, stop: int, at_terminator: bool },
    Bad { at: int },
}

/// One element scan from position `i`: words extend the element, whitespace
/// is skipped, a list separator or a terminator ends it, a reserved word or
/// any other token is refused. `first` and `last` delimit the words seen so
/// far.
pub open spec fn elem_scan(
    tokens: Seq<SpecToken>,
    terms: Seq<SpecTokenValue>,
    i: int,
    first: Option<int>,
    last: int,
) -> SpecElemScan
    decreases tokens.len() - i,
{
    if i < 0 || i >= tokens.len() {
        SpecElemScan::Elem {
            first: first_or(first, 0),
            last,
            stop: tokens.len() as int,
            at_terminator: false,
        }
    } else {
        let v = tokens[i].value;
        if v == sep_values() || v == linker_and() {
            SpecElemScan::Elem { first: first_or(first, 0), last, stop: i, at_terminator: false }
        } else if terms.contains(v) {
            SpecElemScan::Elem { first: first_or(first, 0), last, stop: i, at_terminator: true }
        } else if v is Whitespace {
            elem_scan(tokens, terms, i + 1, first, last)
        } else if v is Word {
            if spec_reserved().contains(v) {
                SpecElemScan::Bad { at: i }
            } else {
                match first {
                    Option::Some(_) => elem_scan(tokens, terms, i + 1, first, i),
                    Option::None => elem_scan(tokens, terms, i + 1, Option::Some(i), last),
                }
            }
        } else {
            SpecElemScan::Bad { at: i }
        }
    }
}

pub open spec fn first_or(first: Option<int>, d: int) -> int {
    match first {
        Option::Some(i) => i,
        Option::None => d,
    }
}

/// The text of one element: each token's text in order, whitespace as one
/// space, a token equal to its predecessor written only once.
pub open spec fn dedup_concat(ts: Seq<SpecToken>) -> Seq<char>
    decreases ts.len(),
{
    if ts.len() == 0 {
        Seq::empty()
    } else if ts.len() == 1 {
        tv_text(ts[0].value)
    } else {
        dedup_concat(ts.drop_last()) + (if ts.last() == ts[ts.len() - 2] {
            Seq::<char>::empty()
        } else {
            tv_text(ts.last().value)
        })
    }
}

pub proof fn lemma_elem_scan_bounds(
    tokens: Seq<SpecToken>,
    terms: Seq<SpecTokenValue>,
    i: int,
    first: Option<int>,
    last: int,
)
    requires
        0 <= i <= tokens.len(),
    ensures
        match elem_scan(tokens, terms, i, first, last) {
            SpecElemScan::Elem { first: f, last: l, stop, at_terminator } => i <= stop
                <= tokens.len(),
            SpecElemScan::Bad { at } => i <= at < tokens.len(),
        },
    decreases tokens.len() - i,
{
    if i < tokens.len() {
        let v = tokens[i].value;
        if v == sep_values() || v == linker_and() || terms.contains(v) {
        } else if v is Whitespace {
            lemma_elem_scan_bounds(tokens, terms, i + 1, first, last);
        } else if v is Word && !spec_reserved().contains(v) {
            match first {
                Option::Some(_) => lemma_elem_scan_bounds(tokens, terms, i + 1, first, i),
                Option::None => lemma_elem_scan_bounds(tokens, terms, i + 1, Option::Some(i), last),
            }
        }
    }
}

pub proof fn lemma_elem_scan_some(
    tokens: Seq<SpecToken>,
    terms: Seq<SpecTokenValue>,
    i: int,
    f: int,
    l: int,
)
    requires
        0 <= f <= l < i <= tokens.len(),
    ensures
        match elem_scan(tokens, terms, i, Option::Some(f), l) {
            SpecElemScan::Elem { first, last, stop, at_terminator } => first == f && f <= last
                && last < stop && stop <= tokens.len() && (at_terminator ==> stop < tokens.len()
                && terms.contains(tokens[stop].value)),
            SpecElemScan::Bad { at } => i <= at < tokens.len(),
        },
    decreases tokens.len() - i,
{
    if i < tokens.len() {
        let v = tokens[i].value;
        if v == sep_values() || v == linker_and() || terms.contains(v) {
        } else if v is Whitespace {
            lemma_elem_scan_some(tokens, terms, i + 1, f, l);
        } else if v is Word && !spec_reserved().contains(v) {
            lemma_elem_scan_some(tokens, terms, i + 1, f, i);
        }
    }
}

// ---------------------------------------------------------------------------
// The list loop
// ---------------------------------------------------------------------------
pub enum SpecListExit {
    Stopped { at: int, elems: Seq<Seq<char>> },
    Rejected { unexpected: Option<SpecToken>, has_elems: bool },
}

pub enum SpecListOutcome {
    Parsed { elems: Seq<Seq<char>>, consumed: int },
    Failed { unexpected: Option<SpecToken>, has_elems: bool },
}

/// The list parser's walk over the tokens: whitespace is skipped, a
/// terminator or a linker word with no element yet stops it, a linker is
/// legal only right after a comma, a word starts an element, and anything
/// else rejects the list. A stream that runs out ends the list normally,
/// with everything consumed.
pub open spec fn list_loop(
    tokens: Seq<SpecToken>,
    terms: Seq<SpecTokenValue>,
    i: int,
    elems: Seq<Seq<char>>,
    last_linker: Option<SpecTokenValue>,
) -> SpecListExit
    decreases tokens.len() - i,
    when 0 <= i <= tokens.len()
    via list_loop_decreases
{
    if i >= tokens.len() {
        SpecListExit::Stopped { at: i, elems }
    } else {
        let t = tokens[i];
        let v = t.value;
        if v is Whitespace {
            list_loop(tokens, terms, i + 1, elems, last_linker)
        } else if terms.contains(v) {
            SpecListExit::Stopped { at: i, elems }
        } else if v == linker_and() {
            if elems.len() == 0 {
                SpecListExit::Stopped { at: i, elems }
            } else if last_linker == Option::Some(sep_values()) {
                list_loop(tokens, terms, i + 1, elems, last_linker)
            } else {
                SpecListExit::Rejected { unexpected: Option::Some(t), has_elems: true }
            }
        } else if v is Word {
            if spec_reserved().contains(v) {
                SpecListExit::Rejected { unexpected: Option::Some(t), has_elems: true }
            } else {
                match elem_scan(tokens, terms, i, Option::None, i) {
                    SpecElemScan::Elem { first, last, stop, at_terminator } => {
                        let elems2 = elems.push(dedup_concat(tokens.subrange(first, last + 1)));
                        if at_terminator {
                            SpecListExit::Stopped { at: stop, elems: elems2 }
                        } else if stop >= tokens.len() {
                            SpecListExit::Stopped { at: tokens.len() as int, elems: elems2 }
                        } else {
                            list_loop(tokens, terms, stop + 1, elems2, Option::Some(
                                tokens[stop].value,
                            ))
                        }
                    },
                    SpecElemScan::Bad { at } => list_loop(tokens, terms, at, elems, last_linker),
                }
            }
        } else {
            SpecListExit::Rejected { unexpected: Option::Some(t), has_elems: elems.len() > 0 }
        }
    }
}

#[via_fn]
proof fn list_loop_decreases(
    tokens: Seq<SpecToken>,
    terms: Seq<SpecTokenValue>,
    i: int,
    elems: Seq<Seq<char>>,
    last_linker: Option<SpecTokenValue>,
) {
    if 0 <= i < tokens.len() {
        let v = tokens[i].value;
        if v is Word && !spec_reserved().contains(v) && !terms.contains(v) {
            assert(spec_reserved()[4] == linker_and());
            assert(spec_reserved().contains(linker_and()));
            assert(v != linker_and() && v != sep_values());
            assert(elem_scan(tokens, terms, i, Option::None, i) == elem_scan(
                tokens,
                terms,
                i + 1,
                Option::Some(i),
                i,
            ));
            lemma_elem_scan_bounds(tokens, terms, i + 1, Option::Some(i), i);
            match elem_scan(tokens, terms, i, Option::None, i) {
                SpecElemScan::Elem { first, last, stop, at_terminator } => {
                    assert(stop > i);
                },
                SpecElemScan::Bad { at } => {
                    assert(at > i);
                },
            }
        }
    }
}

/// What parsing one comma/"and"-separated list gives: the elements and how
/// many tokens were consumed (the terminator's position, or the whole
/// stream when it ran out), or the failure with its offending token. An
/// empty list is a failure of its own.
pub open spec fn spec_parse_list(tokens: Seq<SpecToken>, terms: Seq<SpecTokenValue>) -> SpecListOutcome {
    match list_loop(tokens, terms, 0, Seq::empty(), Option::None) {
        SpecListExit::Rejected { unexpected, has_elems } => SpecListOutcome::Failed {
            unexpected,
            has_elems,
        },
        SpecListExit::Stopped { at, elems } => {
            if elems.len() == 0 {
                SpecListOutcome::Failed {
                    unexpected: if tokens.len() == 0 {
                        Option::None
                    } else {
                        Option::Some(
                            tokens[
                                if at < tokens.len() - 1 {
                                    at
                                } else {
                                    tokens.len() - 1
                                }
                            ],
                        )
                    },
                    has_elems: false,
                }
            } else {
                SpecListOutcome::Parsed { elems, consumed: at }
            }
        },
    }
}

pub proof fn lemma_list_loop_stopped(
    tokens: Seq<SpecToken>,
    terms: Seq<SpecTokenValue>,
    i: int,
    elems: Seq<Seq<char>>,
    last_linker: Option<SpecTokenValue>,
)
    requires
        0 <= i <= tokens.len(),
    ensures
        match list_loop(tokens, terms, i, elems, last_linker) {
            SpecListExit::Stopped { at, elems: es } => i <= at <= tokens.len() && (es.len() > 0
                ==> at == tokens.len() || terms.contains(tokens[at].value)),
            SpecListExit::Rejected { .. } => true,
        },
    decreases tokens.len() - i,
{
    if i < tokens.len() {
        let v = tokens[i].value;
        if v is Whitespace {
            lemma_list_loop_stopped(tokens, terms, i + 1, elems, last_linker);
        } else if terms.contains(v) {
        } else if v == linker_and() {
            if elems.len() == 0 {
            } else if last_linker == Option::Some(sep_values()) {
                lemma_list_loop_stopped(tokens, terms, i + 1, elems, last_linker);
            }
        } else if v is Word {
            if !spec_reserved().contains(v) {
                assert(spec_reserved()[4] == linker_and());
                assert(spec_reserved().contains(linker_and()));
                assert(elem_scan(tokens, terms, i, Option::None, i) == elem_scan(
                    tokens,
                    terms,
                    i + 1,
                    Option::Some(i),
                    i,
                ));
                lemma_elem_scan_some(tokens, terms, i + 1, i, i);
                match elem_scan(tokens, terms, i, Option::None, i) {
                    SpecElemScan::Elem { first, last, stop, at_terminator } => {
                        let elems2 = elems.push(dedup_concat(tokens.subrange(first, last + 1)));
                        if at_terminator {
                        } else if stop >= tokens.len() {
                        } else {
                            lemma_list_loop_stopped(
                                tokens,
                                terms,
                                stop + 1,
                                elems2,
                                Option::Some(tokens[stop].value),
                            );
                        }
                    },
                    SpecElemScan::Bad { at } => {
                        lemma_list_loop_stopped(tokens, terms, at, elems, last_linker);
                    },
                }
            }
        }
    }
}

/// A successfully parsed list stopped inside the tokens only at one of its
/// terminators, and never produced an empty element list.
pub proof fn lemma_parse_list_parsed(tokens: Seq<SpecToken>, terms: Seq<SpecTokenValue>)
    ensures
        match spec_parse_list(tokens, terms) {
            SpecListOutcome::Parsed { elems, consumed } => 0 <= consumed <= tokens.len()
                && elems.len() > 0 && (consumed == tokens.len() || terms.contains(
                tokens[consumed].value,
            )),
            SpecListOutcome::Failed { .. } => true,
        },
{
    lemma_list_loop_stopped(tokens, terms, 0, Seq::empty(), Option::None);
}

/// A statement's token slice: operation terminators stand only at its last
/// position, the way the dispatcher slices statements.
pub open spec fn statement_slice(toks: Seq<SpecToken>) -> bool {
    forall|k: int|
        0 <= k < toks.len() - 1 ==> !spec_terminators().contains((#[trigger] toks[k]).value)
}

// ---------------------------------------------------------------------------
// Statement slicing
// ---------------------------------------------------------------------------
/// How many tokens one statement takes: everything up to and including the
/// first operation terminator, or all remaining tokens when none follows.
pub open spec fn op_token_count(tokens: Seq<SpecToken>) -> int
    decreases tokens.len(),
{
    if tokens.len() == 0 {
        0
    } else if spec_terminators().contains(tokens[0].value) {
        1
    } else {
        1 + op_token_count(tokens.drop_first())
    }
}

pub proof fn lemma_op_token_count_bounds(tokens: Seq<SpecToken>)
    ensures
        0 <= op_token_count(tokens) <= tokens.len(),
    decreases tokens.len(),
{
    if tokens.len() > 0 && !spec_terminators().contains(tokens[0].value) {
        lemma_op_token_count_bounds(tokens.drop_first());
    }
}

/// The statement slice the dispatcher cuts has terminators only at its very
/// end.
pub proof fn lemma_op_tokens_statement_slice(tokens: Seq<SpecToken>)
    ensures
        statement_slice(tokens.subrange(0, op_token_count(tokens))),
    decreases tokens.len(),
{
    lemma_op_token_count_bounds(tokens);
    if tokens.len() == 0 || spec_terminators().contains(tokens[0].value) {
    } else {
        lemma_op_tokens_statement_slice(tokens.drop_first());
        lemma_op_token_count_bounds(tokens.drop_first());
        let c = op_token_count(tokens);
        assert(tokens.drop_first().subrange(0, c - 1) =~= tokens.subrange(0, c).drop_first());
        assert forall|k: int|
            0 <= k < c - 1 implies !spec_terminators().contains(
            (#[trigger] tokens.subrange(0, c)[k]).value,
        ) by {
            if k > 0 {
                assert(tokens.subrange(0, c)[k] == tokens.drop_first().subrange(0, c - 1)[k - 1]);
            }
        }
    }
}

} // verus!

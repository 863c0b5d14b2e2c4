use crate::lexer::{
    classify, first_line_len, has_unknown, lemma_first_line_len_bounds, lex_lines, lex_segments,
    lines_of, reserved_punct_char, spec_tokens, sum_graphemes, tv_text, word_bounds, SpecToken,
    SpecTokenValue,
};
use crate::operation::{
    Modifier, SpecOperation, SpecOperationAdd, SpecOperationCreate, SpecOperationRemove,
    SpecOperationShow,
};
use crate::parser::error::SpecError;
use crate::parser::model::{
    dedup_concat, elem_scan, linker_and, linker_from, linker_to, list_loop, op_token_count,
    sep_plain, sep_values, seq_from, spec_parse_list, spec_remove_list_terminators,
    spec_reserved, spec_terminators, SpecElemScan, SpecListExit, SpecListOutcome,
};
use crate::parser::util::spec_handle_terminator;
use crate::parser::{
    parse_loop, spec_parse, spec_parse_add, spec_parse_create, spec_parse_remove, spec_parse_show,
};
use crate::util::{all_letters, all_whitespace, letter_char, whitespace_char};
use vstd::prelude::*;

verus! {

// ---------------------------------------------------------------------------
// Whitespace-only input
// ---------------------------------------------------------------------------
/// A token stream of nothing but whitespace holds no unknown token and
/// parses to no operations at all: the dispatcher skips every token.
pub proof fn law_whitespace_tokens_parse_to_nothing(toks: Seq<SpecToken>)
    requires
        forall|i: int| 0 <= i < toks.len() ==> (#[trigger] toks[i]).value is Whitespace,
    ensures
        !has_unknown(toks),
        spec_parse(toks) == Result::<Seq<SpecOperation>, SpecError>::Ok(
            Seq::<SpecOperation>::empty(),
        ),
{
    lemma_parse_loop_whitespace(toks, 0, Seq::empty());
}

proof fn lemma_parse_loop_whitespace(toks: Seq<SpecToken>, i: int, acc: Seq<SpecOperation>)
    requires
        0 <= i <= toks.len(),
        forall|k: int| 0 <= k < toks.len() ==> (#[trigger] toks[k]).value is Whitespace,
    ensures
        parse_loop(toks, i, acc) == Result::<Seq<SpecOperation>, SpecError>::Ok(acc),
    decreases toks.len() - i,
{
    if i < toks.len() {
        lemma_parse_loop_whitespace(toks, i + 1, acc);
    }
}

/// All the characters of a whitespace-only source end up in whitespace
/// tokens. The second premise is what the word segmentation guarantees of
/// every line: the segments of a line concatenate back to it.
pub proof fn law_whitespace_source_lexes_to_whitespace(s: Seq<char>)
    requires
        all_whitespace(s),
        forall|i: int|
            0 <= i < lines_of(s).len() ==> (#[trigger] word_bounds(lines_of(s)[i])).flatten()
                == lines_of(s)[i],
    ensures
        forall|j: int|
            0 <= j < spec_tokens(s).len() ==> (#[trigger] spec_tokens(s)[j]).value is Whitespace,
        !has_unknown(spec_tokens(s)),
{
    lemma_lines_of_whitespace(s);
    lemma_lex_lines_whitespace(lines_of(s), 1);
    assert forall|j: int| 0 <= j < spec_tokens(s).len() implies (#[trigger] spec_tokens(
        s,
    )[j]).value is Whitespace by {}
}

proof fn lemma_all_whitespace_take_skip(s: Seq<char>, k: int)
    requires
        all_whitespace(s),
        0 <= k <= s.len(),
    ensures
        all_whitespace(s.take(k)),
        all_whitespace(s.skip(k)),
{
    assert forall|i: int| 0 <= i < s.take(k).len() implies whitespace_char(
        #[trigger] s.take(k)[i],
    ) by {
        assert(s.take(k)[i] == s[i]);
    }
    assert forall|i: int| 0 <= i < s.skip(k).len() implies whitespace_char(
        #[trigger] s.skip(k)[i],
    ) by {
        assert(s.skip(k)[i] == s[i + k]);
    }
}

proof fn lemma_lines_of_whitespace(s: Seq<char>)
    requires
        all_whitespace(s),
    ensures
        forall|i: int| 0 <= i < lines_of(s).len() ==> all_whitespace(#[trigger] lines_of(s)[i]),
    decreases s.len(),
{
    if s.len() > 0 {
        lemma_first_line_len_bounds(s);
        let k = first_line_len(s) as int;
        lemma_all_whitespace_take_skip(s, k);
        lemma_lines_of_whitespace(s.skip(k));
        assert forall|i: int| 0 <= i < lines_of(s).len() implies all_whitespace(
            #[trigger] lines_of(s)[i],
        ) by {
            if i > 0 {
                assert(lines_of(s)[i] == lines_of(s.skip(k))[i - 1]);
            }
        }
    }
}

proof fn lemma_flatten_pieces_whitespace(segs: Seq<Seq<char>>)
    requires
        all_whitespace(segs.flatten()),
    ensures
        forall|i: int| 0 <= i < segs.len() ==> all_whitespace(#[trigger] segs[i]),
    decreases segs.len(),
{
    if segs.len() > 0 {
        assert(segs.flatten() == segs[0] + segs.drop_first().flatten());
        assert forall|j: int| 0 <= j < segs[0].len() implies whitespace_char(
            #[trigger] segs[0][j],
        ) by {
            assert(segs.flatten()[j] == segs[0][j]);
        }
        assert forall|j: int| 0 <= j < segs.drop_first().flatten().len() implies whitespace_char(
            #[trigger] segs.drop_first().flatten()[j],
        ) by {
            assert(segs.flatten()[segs[0].len() + j] == segs.drop_first().flatten()[j]);
        }
        lemma_flatten_pieces_whitespace(segs.drop_first());
        assert forall|i: int| 0 <= i < segs.len() implies all_whitespace(#[trigger] segs[i]) by {
            if i > 0 {
                assert(segs[i] == segs.drop_first()[i - 1]);
            }
        }
    }
}

proof fn lemma_lex_segments_whitespace(segs: Seq<Seq<char>>, line: Seq<char>, ln: int, col: int)
    requires
        forall|i: int| 0 <= i < segs.len() ==> all_whitespace(#[trigger] segs[i]),
    ensures
        forall|j: int|
            0 <= j < lex_segments(segs, line, ln, col).len() ==> (#[trigger] lex_segments(
                segs,
                line,
                ln,
                col,
            )[j]).value is Whitespace,
    decreases segs.len(),
{
    if segs.len() > 0 {
        assert(classify(segs[0]) is Whitespace);
        lemma_lex_segments_whitespace(
            segs.drop_first(),
            line,
            ln,
            col + crate::util::grapheme_count(segs[0]),
        );
        assert forall|i: int| 0 <= i < segs.drop_first().len() implies all_whitespace(
            #[trigger] segs.drop_first()[i],
        ) by {
            assert(segs.drop_first()[i] == segs[i + 1]);
        }
    }
}

proof fn lemma_lex_lines_whitespace(lines: Seq<Seq<char>>, first_no: int)
    requires
        forall|i: int| 0 <= i < lines.len() ==> all_whitespace(#[trigger] lines[i]),
        forall|i: int|
            0 <= i < lines.len() ==> (#[trigger] word_bounds(lines[i])).flatten() == lines[i],
    ensures
        forall|j: int|
            0 <= j < lex_lines(lines, first_no).len() ==> (#[trigger] lex_lines(
                lines,
                first_no,
            )[j]).value is Whitespace,
    decreases lines.len(),
{
    if lines.len() > 0 {
        lemma_flatten_pieces_whitespace(word_bounds(lines[0]));
        lemma_lex_segments_whitespace(word_bounds(lines[0]), lines[0], first_no, 1);
        assert forall|i: int| 0 <= i < lines.drop_first().len() implies all_whitespace(
            #[trigger] lines.drop_first()[i],
        ) && word_bounds(lines.drop_first()[i]).flatten() == lines.drop_first()[i] by {
            assert(lines.drop_first()[i] == lines[i + 1]);
        }
        lemma_lex_lines_whitespace(lines.drop_first(), first_no + 1);
        let head = lex_segments(word_bounds(lines[0]), lines[0], first_no, 1);
        let tail = lex_lines(lines.drop_first(), first_no + 1);
        assert forall|j: int| 0 <= j < lex_lines(lines, first_no).len() implies (
        #[trigger] lex_lines(lines, first_no)[j]).value is Whitespace by {
            if j < head.len() {
                assert(lex_lines(lines, first_no)[j] == head[j]);
            } else {
                assert(lex_lines(lines, first_no)[j] == tail[j - head.len()]);
            }
        }
    }
}

// ---------------------------------------------------------------------------
// The safe and the unsafe alphabet
// ---------------------------------------------------------------------------
/// A character the lexer can always place: whitespace, a letter, or one of
/// the four reserved punctuation marks.
pub open spec fn benign_char(c: char) -> bool {
    whitespace_char(c) || letter_char(c) || reserved_punct_char(c)
}

/// A segment the classifier never refuses: all-whitespace, all-letter, or a
/// single reserved punctuation mark.
pub open spec fn benign_segment(seg: Seq<char>) -> bool {
    all_whitespace(seg) || (seg.len() == 1 && reserved_punct_char(seg[0])) || all_letters(seg)
}

/// When every line's word segmentation yields only benign segments, lexing
/// cannot fail: no segment classifies as unknown.
pub proof fn law_benign_segments_lex_without_error(s: Seq<char>)
    requires
        forall|i: int, k: int|
            0 <= i < lines_of(s).len() && 0 <= k < word_bounds(lines_of(s)[i]).len()
                ==> benign_segment(#[trigger] word_bounds(lines_of(s)[i])[k]),
    ensures
        !has_unknown(spec_tokens(s)),
{
    lemma_lex_lines_benign(lines_of(s), 1);
    if has_unknown(spec_tokens(s)) {
        let j = choose|j: int|
            0 <= j < spec_tokens(s).len() && (#[trigger] spec_tokens(s)[j]).value is Unknown;
        assert(!(spec_tokens(s)[j].value is Unknown));
    }
}

proof fn lemma_benign_not_unknown(seg: Seq<char>)
    requires
        benign_segment(seg),
    ensures
        !(classify(seg) is Unknown),
{
}

proof fn lemma_lex_segments_benign(segs: Seq<Seq<char>>, line: Seq<char>, ln: int, col: int)
    requires
        forall|k: int| 0 <= k < segs.len() ==> benign_segment(#[trigger] segs[k]),
    ensures
        forall|j: int|
            0 <= j < lex_segments(segs, line, ln, col).len() ==> !((#[trigger] lex_segments(
                segs,
                line,
                ln,
                col,
            )[j]).value is Unknown),
    decreases segs.len(),
{
    if segs.len() > 0 {
        lemma_benign_not_unknown(segs[0]);
        assert forall|k: int| 0 <= k < segs.drop_first().len() implies benign_segment(
            #[trigger] segs.drop_first()[k],
        ) by {
            assert(segs.drop_first()[k] == segs[k + 1]);
        }
        lemma_lex_segments_benign(
            segs.drop_first(),
            line,
            ln,
            col + crate::util::grapheme_count(segs[0]),
        );
    }
}

proof fn lemma_lex_lines_benign(lines: Seq<Seq<char>>, first_no: int)
    requires
        forall|i: int, k: int|
            0 <= i < lines.len() && 0 <= k < word_bounds(lines[i]).len() ==> benign_segment(
                #[trigger] word_bounds(lines[i])[k],
            ),
    ensures
        forall|j: int|
            0 <= j < lex_lines(lines, first_no).len() ==> !((#[trigger] lex_lines(
                lines,
                first_no,
            )[j]).value is Unknown),
    decreases lines.len(),
{
    if lines.len() > 0 {
        lemma_lex_segments_benign(word_bounds(lines[0]), lines[0], first_no, 1);
        assert forall|i: int, k: int|
            0 <= i < lines.drop_first().len() && 0 <= k < word_bounds(
                lines.drop_first()[i],
            ).len() implies benign_segment(#[trigger] word_bounds(lines.drop_first()[i])[k]) by {
            assert(lines.drop_first()[i] == lines[i + 1]);
        }
        lemma_lex_lines_benign(lines.drop_first(), first_no + 1);
        let head = lex_segments(word_bounds(lines[0]), lines[0], first_no, 1);
        let tail = lex_lines(lines.drop_first(), first_no + 1);
        assert forall|j: int| 0 <= j < lex_lines(lines, first_no).len() implies !((
        #[trigger] lex_lines(lines, first_no)[j]).value is Unknown) by {
            if j < head.len() {
                assert(lex_lines(lines, first_no)[j] == head[j]);
            } else {
                assert(lex_lines(lines, first_no)[j] == tail[j - head.len()]);
            }
        }
    }
}

/// A segment holding any character outside the safe alphabet classifies as
/// unknown, whatever else it holds.
pub proof fn law_bad_character_segment_is_unknown(seg: Seq<char>, j: int)
    requires
        0 <= j < seg.len(),
        !benign_char(seg[j]),
    ensures
        classify(seg) is Unknown,
{
    assert(!all_whitespace(seg));
    assert(!all_letters(seg));
    if seg.len() == 1 && reserved_punct_char(seg[0]) {
        assert(benign_char(seg[0]));
    }
}

/// When some line's segmentation yields a segment with a character outside
/// the safe alphabet, lexing fails: the token stream holds an unknown token.
pub proof fn law_bad_character_fails_lexing(s: Seq<char>, i: int, k: int, j: int)
    requires
        0 <= i < lines_of(s).len(),
        0 <= k < word_bounds(lines_of(s)[i]).len(),
        0 <= j < word_bounds(lines_of(s)[i])[k].len(),
        !benign_char(word_bounds(lines_of(s)[i])[k][j]),
    ensures
        has_unknown(spec_tokens(s)),
{
    law_bad_character_segment_is_unknown(word_bounds(lines_of(s)[i])[k], j);
    lemma_lex_lines_has_unknown(lines_of(s), 1, i, k);
}

proof fn lemma_lex_segments_at(segs: Seq<Seq<char>>, line: Seq<char>, ln: int, col: int, k: int)
    requires
        0 <= k < segs.len(),
    ensures
        lex_segments(segs, line, ln, col).len() == segs.len(),
        lex_segments(segs, line, ln, col)[k].value == classify(segs[k]),
    decreases k,
{
    lemma_lex_segments_len(segs, line, ln, col);
    if k > 0 {
        lemma_lex_segments_at(
            segs.drop_first(),
            line,
            ln,
            col + crate::util::grapheme_count(segs[0]),
            k - 1,
        );
        assert(segs.drop_first()[k - 1] == segs[k]);
    }
}

proof fn lemma_lex_segments_len(segs: Seq<Seq<char>>, line: Seq<char>, ln: int, col: int)
    ensures
        lex_segments(segs, line, ln, col).len() == segs.len(),
    decreases segs.len(),
{
    if segs.len() > 0 {
        lemma_lex_segments_len(
            segs.drop_first(),
            line,
            ln,
            col + crate::util::grapheme_count(segs[0]),
        );
    }
}

proof fn lemma_lex_lines_has_unknown(lines: Seq<Seq<char>>, first_no: int, i: int, k: int)
    requires
        0 <= i < lines.len(),
        0 <= k < word_bounds(lines[i]).len(),
        classify(word_bounds(lines[i])[k]) is Unknown,
    ensures
        exists|j: int|
            0 <= j < lex_lines(lines, first_no).len() && (#[trigger] lex_lines(
                lines,
                first_no,
            )[j]).value is Unknown,
    decreases i,
{
    let head = lex_segments(word_bounds(lines[0]), lines[0], first_no, 1);
    let tail = lex_lines(lines.drop_first(), first_no + 1);
    if i == 0 {
        lemma_lex_segments_at(word_bounds(lines[0]), lines[0], first_no, 1, k);
        assert(lex_lines(lines, first_no)[k] == head[k]);
        assert(lex_lines(lines, first_no)[k].value is Unknown);
    } else {
        assert(lines.drop_first()[i - 1] == lines[i]);
        lemma_lex_lines_has_unknown(lines.drop_first(), first_no + 1, i - 1, k);
        let j = choose|j: int|
            0 <= j < tail.len() && (#[trigger] tail[j]).value is Unknown;
        assert(lex_lines(lines, first_no)[head.len() + j] == tail[j]);
        assert(lex_lines(lines, first_no)[head.len() + j].value is Unknown);
    }
}

// ---------------------------------------------------------------------------
// Round trip: canonical statements parse back to their operation
// ---------------------------------------------------------------------------
pub open spec fn wtok(w: Seq<char>) -> SpecToken {
    SpecToken {
        value: SpecTokenValue::Word(w),
        line: Seq::empty(),
        line_number: 0,
        column_number: 0,
    }
}

pub open spec fn wstok() -> SpecToken {
    SpecToken {
        value: SpecTokenValue::Whitespace,
        line: Seq::empty(),
        line_number: 0,
        column_number: 0,
    }
}

pub open spec fn ptok(p: Seq<char>) -> SpecToken {
    SpecToken {
        value: SpecTokenValue::Punctuation(p),
        line: Seq::empty(),
        line_number: 0,
        column_number: 0,
    }
}

/// The token form of a rendered list tail joined "e, e, ..., and e": used
/// from the third-from-last element on, where the final "and" keeps its
/// comma.
pub open spec fn canon_tail(es: Seq<Seq<char>>) -> Seq<SpecToken>
    decreases es.len(),
{
    if es.len() == 0 {
        Seq::empty()
    } else if es.len() == 1 {
        seq![wtok(es[0])]
    } else if es.len() == 2 {
        seq![wtok(es[0]), ptok(","@), wstok(), wtok("and"@), wstok(), wtok(es[1])]
    } else {
        seq![wtok(es[0]), ptok(","@), wstok()] + canon_tail(es.drop_first())
    }
}

/// The token form of a rendered list: exactly two elements are joined by a
/// bare "and", three or more keep a comma before the final "and".
pub open spec fn canon_list(es: Seq<Seq<char>>) -> Seq<SpecToken> {
    if es.len() == 2 {
        seq![wtok(es[0]), wstok(), wtok("and"@), wstok(), wtok(es[1])]
    } else {
        canon_tail(es)
    }
}

/// A list element a statement can carry: a word that is not part of the
/// reserved vocabulary nor one of this list's terminators.
pub open spec fn elem_ok(e: Seq<char>, terms: Seq<SpecTokenValue>) -> bool {
    !spec_reserved().contains(SpecTokenValue::Word(e)) && !terms.contains(SpecTokenValue::Word(e))
}

pub open spec fn elems_ok(es: Seq<Seq<char>>, terms: Seq<SpecTokenValue>) -> bool {
    forall|k: int| 0 <= k < es.len() ==> elem_ok(#[trigger] es[k], terms)
}

/// A terminator set that does not swallow the list syntax itself.
pub open spec fn terms_ok(terms: Seq<SpecTokenValue>) -> bool {
    !terms.contains(SpecTokenValue::Whitespace) && !terms.contains(sep_values())
        && !terms.contains(linker_and())
}

proof fn lemma_elem_word_distinct(e: Seq<char>, terms: Seq<SpecTokenValue>)
    requires
        elem_ok(e, terms),
    ensures
        SpecTokenValue::Word(e) != linker_and(),
        SpecTokenValue::Word(e) != sep_values(),
{
    assert(spec_reserved()[4] == linker_and());
    if SpecTokenValue::Word(e) == linker_and() {
        assert(spec_reserved().contains(SpecTokenValue::Word(e)));
    }
}

/// Scanning one canonical element: the element is the single word at `i`,
/// and the scan stops at the token right after it (after at most one run of
/// whitespace), which is a separator, an "and", or a terminator.
proof fn lemma_canon_elem_scan(
    t: Seq<SpecToken>,
    terms: Seq<SpecTokenValue>,
    i: int,
    e: Seq<char>,
)
    requires
        terms_ok(terms),
        elem_ok(e, terms),
        0 <= i < t.len(),
        t[i] == wtok(e),
    ensures
        i + 1 < t.len() && (t[i + 1].value == sep_values() || t[i + 1].value == linker_and())
            ==> elem_scan(t, terms, i, Option::None, i) == (SpecElemScan::Elem {
            first: i,
            last: i,
            stop: i + 1,
            at_terminator: false,
        }),
        i + 1 < t.len() && terms.contains(t[i + 1].value) ==> elem_scan(
            t,
            terms,
            i,
            Option::None,
            i,
        ) == (SpecElemScan::Elem { first: i, last: i, stop: i + 1, at_terminator: true }),
        i + 2 < t.len() && t[i + 1] == wstok() && t[i + 2].value == linker_and() ==> elem_scan(
            t,
            terms,
            i,
            Option::None,
            i,
        ) == (SpecElemScan::Elem { first: i, last: i, stop: i + 2, at_terminator: false }),
        i + 2 < t.len() && t[i + 1] == wstok() && terms.contains(t[i + 2].value) ==> elem_scan(
            t,
            terms,
            i,
            Option::None,
            i,
        ) == (SpecElemScan::Elem { first: i, last: i, stop: i + 2, at_terminator: true }),
{
    lemma_elem_word_distinct(e, terms);
    reveal_with_fuel(elem_scan, 4);
    assert(elem_scan(t, terms, i, Option::None, i) == elem_scan(
        t,
        terms,
        i + 1,
        Option::Some(i),
        i,
    ));
}

/// One canonical element committed by the list loop: its text is the
/// element itself.
proof fn lemma_canon_elem_text(t: Seq<SpecToken>, i: int, e: Seq<char>)
    requires
        0 <= i < t.len(),
        t[i] == wtok(e),
    ensures
        dedup_concat(t.subrange(i, i + 1)) == e,
{
    assert(t.subrange(i, i + 1) =~= seq![t[i]]);
    assert(dedup_concat(seq![t[i]]) == tv_text(t[i].value));
}

/// Walking a canonical list tail: every element is collected in order and
/// the walk stops exactly at the token after the tail.
proof fn lemma_walk_tail(
    t: Seq<SpecToken>,
    terms: Seq<SpecTokenValue>,
    i: int,
    done: Seq<Seq<char>>,
    last_linker: Option<SpecTokenValue>,
    es: Seq<Seq<char>>,
    gap: int,
)
    requires
        terms_ok(terms),
        elems_ok(es, terms),
        es.len() >= 2,
        0 <= i,
        gap == 0 || gap == 1,
        i + canon_tail(es).len() + gap < t.len(),
        t.subrange(i, i + canon_tail(es).len()) == canon_tail(es),
        gap == 1 ==> t[i + canon_tail(es).len()] == wstok(),
        terms.contains(t[i + canon_tail(es).len() + gap].value),
    ensures
        list_loop(t, terms, i, done, last_linker) == (SpecListExit::Stopped {
            at: i + canon_tail(es).len() + gap,
            elems: done + es,
        }),
    decreases es.len(),
{
    let c = canon_tail(es).len();
    let sub = t.subrange(i, i + c);
    assert(t[i] == sub[0]);
    lemma_elem_word_distinct(es[0], terms);
    lemma_canon_elem_text(t, i, es[0]);
    if es.len() == 2 {
        assert(t[i] == wtok(es[0]));
        assert(t[i + 1] == sub[1] && sub[1] == ptok(","@));
        assert(t[i + 2] == sub[2] && sub[2] == wstok());
        assert(t[i + 3] == sub[3] && sub[3] == wtok("and"@));
        assert(t[i + 4] == sub[4] && sub[4] == wstok());
        assert(t[i + 5] == sub[5] && sub[5] == wtok(es[1]));
        lemma_canon_elem_scan(t, terms, i, es[0]);
        let done1 = done.push(es[0]);
        assert(list_loop(t, terms, i, done, last_linker) == list_loop(
            t,
            terms,
            i + 2,
            done1,
            Option::Some(sep_values()),
        ));
        assert(list_loop(t, terms, i + 2, done1, Option::Some(sep_values())) == list_loop(
            t,
            terms,
            i + 3,
            done1,
            Option::Some(sep_values()),
        ));
        lemma_elem_word_distinct(es[1], terms);
        assert(spec_reserved()[4] == linker_and());
        assert(spec_reserved().contains(linker_and()));
        assert(list_loop(t, terms, i + 3, done1, Option::Some(sep_values())) == list_loop(
            t,
            terms,
            i + 4,
            done1,
            Option::Some(sep_values()),
        ));
        assert(list_loop(t, terms, i + 4, done1, Option::Some(sep_values())) == list_loop(
            t,
            terms,
            i + 5,
            done1,
            Option::Some(sep_values()),
        ));
        lemma_canon_elem_scan(t, terms, i + 5, es[1]);
        lemma_canon_elem_text(t, i + 5, es[1]);
        assert(list_loop(t, terms, i + 5, done1, Option::Some(sep_values()))
            == (SpecListExit::Stopped { at: i + 6 + gap, elems: done1.push(es[1]) }));
        assert(done1.push(es[1]) =~= done + es);
    } else {
        assert(t[i] == wtok(es[0]));
        assert(t[i + 1] == sub[1] && sub[1] == ptok(","@));
        assert(t[i + 2] == sub[2] && sub[2] == wstok());
        lemma_canon_elem_scan(t, terms, i, es[0]);
        let done1 = done.push(es[0]);
        assert(list_loop(t, terms, i, done, last_linker) == list_loop(
            t,
            terms,
            i + 2,
            done1,
            Option::Some(sep_values()),
        ));
        assert(list_loop(t, terms, i + 2, done1, Option::Some(sep_values())) == list_loop(
            t,
            terms,
            i + 3,
            done1,
            Option::Some(sep_values()),
        ));
        let rest = es.drop_first();
        assert(elems_ok(rest, terms)) by {
            assert(forall|k: int|
                0 <= k < rest.len() ==> #[trigger] rest[k] == es[k + 1]);
        }
        assert(t.subrange(i + 3, i + 3 + canon_tail(rest).len()) =~= canon_tail(rest)) by {
            assert(canon_tail(es) == seq![wtok(es[0]), ptok(","@), wstok()] + canon_tail(rest));
            assert(forall|j: int|
                0 <= j < canon_tail(rest).len() ==> #[trigger] t.subrange(
                    i + 3,
                    i + 3 + canon_tail(rest).len(),
                )[j] == sub[j + 3]);
            assert(forall|j: int|
                0 <= j < canon_tail(rest).len() ==> #[trigger] sub[j + 3] == canon_tail(rest)[j]);
        }
        lemma_walk_tail(t, terms, i + 3, done1, Option::Some(sep_values()), rest, gap);
        assert(done1 + rest =~= done + es);
    }
}

/// Walking a full canonical list.
proof fn lemma_walk_list(
    t: Seq<SpecToken>,
    terms: Seq<SpecTokenValue>,
    i: int,
    done: Seq<Seq<char>>,
    last_linker: Option<SpecTokenValue>,
    es: Seq<Seq<char>>,
    gap: int,
)
    requires
        terms_ok(terms),
        elems_ok(es, terms),
        es.len() >= 1,
        0 <= i,
        gap == 0 || gap == 1,
        i + canon_list(es).len() + gap < t.len(),
        t.subrange(i, i + canon_list(es).len()) == canon_list(es),
        gap == 1 ==> t[i + canon_list(es).len()] == wstok(),
        terms.contains(t[i + canon_list(es).len() + gap].value),
    ensures
        list_loop(t, terms, i, done, last_linker) == (SpecListExit::Stopped {
            at: i + canon_list(es).len() + gap,
            elems: done + es,
        }),
{
    let c = canon_list(es).len();
    let sub = t.subrange(i, i + c);
    assert(t[i] == sub[0]);
    lemma_elem_word_distinct(es[0], terms);
    lemma_canon_elem_text(t, i, es[0]);
    if es.len() == 1 {
        assert(t[i] == wtok(es[0]));
        lemma_canon_elem_scan(t, terms, i, es[0]);
        assert(list_loop(t, terms, i, done, last_linker) == (SpecListExit::Stopped {
            at: i + 1 + gap,
            elems: done.push(es[0]),
        }));
        assert(done.push(es[0]) =~= done + es);
    } else if es.len() == 2 {
        assert(t[i] == wtok(es[0]));
        assert(t[i + 1] == sub[1] && sub[1] == wstok());
        assert(t[i + 2] == sub[2] && sub[2] == wtok("and"@));
        assert(t[i + 3] == sub[3] && sub[3] == wstok());
        assert(t[i + 4] == sub[4] && sub[4] == wtok(es[1]));
        lemma_canon_elem_scan(t, terms, i, es[0]);
        let done1 = done.push(es[0]);
        assert(list_loop(t, terms, i, done, last_linker) == list_loop(
            t,
            terms,
            i + 3,
            done1,
            Option::Some(linker_and()),
        ));
        assert(list_loop(t, terms, i + 3, done1, Option::Some(linker_and())) == list_loop(
            t,
            terms,
            i + 4,
            done1,
            Option::Some(linker_and()),
        ));
        lemma_elem_word_distinct(es[1], terms);
        lemma_canon_elem_scan(t, terms, i + 4, es[1]);
        lemma_canon_elem_text(t, i + 4, es[1]);
        assert(list_loop(t, terms, i + 4, done1, Option::Some(linker_and()))
            == (SpecListExit::Stopped { at: i + 5 + gap, elems: done1.push(es[1]) }));
        assert(done1.push(es[1]) =~= done + es);
    } else {
        lemma_walk_tail(t, terms, i, done, last_linker, es, gap);
    }
}

/// The reserved vocabulary's values are pairwise distinct, and the three
/// list-terminator sets contain exactly what they name.
proof fn lemma_vocab_distinct()
    ensures
        sep_values() != sep_plain(),
        sep_values() != crate::parser::model::sep_overwrite(),
        sep_values() != crate::parser::model::sep_fail_silently(),
        sep_plain() != crate::parser::model::sep_overwrite(),
        sep_plain() != crate::parser::model::sep_fail_silently(),
        crate::parser::model::kw_add() != crate::parser::model::kw_create(),
        crate::parser::model::kw_add() != crate::parser::model::kw_show(),
        crate::parser::model::kw_add() != crate::parser::model::kw_remove(),
        crate::parser::model::kw_create() != crate::parser::model::kw_show(),
        crate::parser::model::kw_create() != crate::parser::model::kw_remove(),
        crate::parser::model::kw_show() != crate::parser::model::kw_remove(),
        spec_terminators().contains(sep_plain()),
        !spec_terminators().contains(sep_values()),
        !spec_terminators().contains(SpecTokenValue::Whitespace),
        !spec_terminators().contains(linker_and()),
        terms_ok(spec_terminators()),
        terms_ok(seq![linker_to()]),
        terms_ok(spec_remove_list_terminators()),
        spec_remove_list_terminators().contains(linker_from()),
        seq![linker_to()].contains(linker_to()),
{
    reveal_strlit(",");
    reveal_strlit(".");
    reveal_strlit("!");
    reveal_strlit("?");
    reveal_strlit("Add");
    reveal_strlit("Create");
    reveal_strlit("Remove");
    reveal_strlit("Show");
    reveal_strlit("and");
    reveal_strlit("to");
    reveal_strlit("from");
    assert("and"@.len() == 3 && "to"@.len() == 2 && "from"@.len() == 4);
    assert(spec_terminators()[0] == sep_plain());
    assert(spec_terminators()[1] == crate::parser::model::sep_overwrite());
    assert(spec_terminators()[2] == crate::parser::model::sep_fail_silently());
    assert(spec_remove_list_terminators()[0] == linker_from());
    assert(seq![linker_to()][0] == linker_to());
    assert(","@[0] == ',' && "."@[0] == '.' && "!"@[0] == '!' && "?"@[0] == '?');
    assert("Add"@.len() == 3 && "Create"@.len() == 6 && "Show"@.len() == 4 && "Remove"@.len()
        == 6);
    assert("Create"@[0] == 'C' && "Remove"@[0] == 'R');
    assert(forall|i: int|
        0 <= i < spec_terminators().len() ==> #[trigger] spec_terminators()[i] != sep_values());
    assert(forall|i: int|
        0 <= i < spec_terminators().len() ==> #[trigger] spec_terminators()[i]
            != SpecTokenValue::Whitespace);
    assert(forall|i: int|
        0 <= i < spec_terminators().len() ==> #[trigger] spec_terminators()[i] != linker_and());
    assert(forall|i: int|
        0 <= i < spec_remove_list_terminators().len() ==> #[trigger] spec_remove_list_terminators()[i]
            != SpecTokenValue::Whitespace && spec_remove_list_terminators()[i] != sep_values()
            && spec_remove_list_terminators()[i] != linker_and()) by {
        assert(spec_remove_list_terminators()[1] == sep_plain());
        assert(spec_remove_list_terminators()[2] == crate::parser::model::sep_overwrite());
        assert(spec_remove_list_terminators()[3] == crate::parser::model::sep_fail_silently());
        assert(spec_reserved()[4] == linker_and());
        assert(spec_reserved()[6] == linker_from());
    }
    assert(forall|i: int|
        0 <= i < seq![linker_to()].len() ==> #[trigger] seq![linker_to()][i]
            != SpecTokenValue::Whitespace && seq![linker_to()][i] != sep_values() && seq![
        linker_to(),
    ][i] != linker_and()) by {
        reveal_strlit("and");
        reveal_strlit("to");
        assert("and"@.len() == 3 && "to"@.len() == 2);
    }
}

/// Elements outside the reserved vocabulary are acceptable against each of
/// the three terminator sets the sub-parsers use.
pub open spec fn nonreserved_elems(es: Seq<Seq<char>>) -> bool {
    forall|k: int|
        0 <= k < es.len() ==> !spec_reserved().contains(
            SpecTokenValue::Word(#[trigger] es[k]),
        )
}

proof fn lemma_elems_ok(es: Seq<Seq<char>>)
    requires
        nonreserved_elems(es),
    ensures
        elems_ok(es, spec_terminators()),
        elems_ok(es, seq![linker_to()]),
        elems_ok(es, spec_remove_list_terminators()),
{
    assert(spec_reserved()[5] == linker_to());
    assert(spec_reserved()[6] == linker_from());
    assert forall|k: int| 0 <= k < es.len() implies elem_ok(#[trigger] es[k], spec_terminators())
        && elem_ok(es[k], seq![linker_to()]) && elem_ok(es[k], spec_remove_list_terminators()) by {
        let w = SpecTokenValue::Word(es[k]);
        assert(spec_terminators()[0] == sep_plain());
        assert(spec_terminators()[1] == crate::parser::model::sep_overwrite());
        assert(spec_terminators()[2] == crate::parser::model::sep_fail_silently());
        assert(forall|i: int|
            0 <= i < spec_terminators().len() ==> #[trigger] spec_terminators()[i] != w);
        if seq![linker_to()].contains(w) {
            assert(seq![linker_to()][0] == linker_to());
            assert(w == linker_to());
            assert(spec_reserved().contains(w));
        }
        if spec_remove_list_terminators().contains(w) {
            assert(spec_remove_list_terminators()[0] == linker_from());
            assert(spec_remove_list_terminators()[1] == sep_plain());
            assert(spec_remove_list_terminators()[2] == crate::parser::model::sep_overwrite());
            assert(spec_remove_list_terminators()[3] == crate::parser::model::sep_fail_silently());
            assert(w == linker_from());
            assert(spec_reserved().contains(w));
        }
    }
}

/// A canonical list holds only word tokens, whitespace and the list comma.
pub open spec fn canon_value_ok(v: SpecTokenValue) -> bool {
    v is Word || v is Whitespace || v == sep_values()
}

proof fn lemma_canon_tail_values(es: Seq<Seq<char>>)
    ensures
        forall|j: int|
            0 <= j < canon_tail(es).len() ==> canon_value_ok(
                (#[trigger] canon_tail(es)[j]).value,
            ),
    decreases es.len(),
{
    if es.len() > 2 {
        lemma_canon_tail_values(es.drop_first());
        assert forall|j: int| 0 <= j < canon_tail(es).len() implies canon_value_ok(
            (#[trigger] canon_tail(es)[j]).value,
        ) by {
            if j >= 3 {
                assert(canon_tail(es)[j] == canon_tail(es.drop_first())[j - 3]);
            }
        }
    }
}

proof fn lemma_canon_list_values(es: Seq<Seq<char>>)
    ensures
        forall|j: int|
            0 <= j < canon_list(es).len() ==> canon_value_ok(
                (#[trigger] canon_list(es)[j]).value,
            ),
{
    lemma_canon_tail_values(es);
}

// ---------------------------------------------------------------------------
// The canonical statements
// ---------------------------------------------------------------------------
pub open spec fn create_statement(es: Seq<Seq<char>>) -> Seq<SpecToken> {
    seq![wtok("Create"@), wstok()] + canon_list(es) + seq![ptok("."@)]
}

pub open spec fn show_statement(es: Seq<Seq<char>>) -> Seq<SpecToken> {
    seq![wtok("Show"@), wstok()] + canon_list(es) + seq![ptok("."@)]
}

pub open spec fn add_statement(ns: Seq<Seq<char>>, ds: Seq<Seq<char>>) -> Seq<SpecToken> {
    seq![wtok("Add"@), wstok()] + canon_list(ns) + seq![wstok(), wtok("to"@), wstok()]
        + canon_list(ds) + seq![ptok("."@)]
}

pub open spec fn remove_statement(ns: Seq<Seq<char>>, ds: Seq<Seq<char>>) -> Seq<SpecToken> {
    seq![wtok("Remove"@), wstok()] + canon_list(ns) + seq![wstok(), wtok("from"@), wstok()]
        + canon_list(ds) + seq![ptok("."@)]
}

pub open spec fn remove_departments_statement(es: Seq<Seq<char>>) -> Seq<SpecToken> {
    seq![wtok("Remove"@), wstok()] + canon_list(es) + seq![ptok("."@)]
}

/// The body of a one-statement slice is terminator-free but for its final
/// full stop, so the dispatcher hands the whole body to the sub-parser.
proof fn lemma_body_is_whole_statement(rest: Seq<SpecToken>)
    requires
        rest.len() >= 1,
        rest[rest.len() - 1] == ptok("."@),
        forall|j: int|
            0 <= j < rest.len() - 1 ==> canon_value_ok((#[trigger] rest[j]).value) || rest[j]
                == wstok() || rest[j].value is Word,
    ensures
        op_token_count(rest) == rest.len(),
{
    lemma_vocab_distinct();
    assert forall|j: int| 0 <= j < rest.len() - 1 implies !spec_terminators().contains(
        (#[trigger] rest[j]).value,
    ) by {
        assert(spec_terminators()[0] == sep_plain());
        assert(spec_terminators()[1] == crate::parser::model::sep_overwrite());
        assert(spec_terminators()[2] == crate::parser::model::sep_fail_silently());
    }
    assert(spec_terminators().contains(sep_plain()));
    crate::parser::util::lemma_op_token_count_prefix(rest, rest.len() - 1);
}

/// Re-parsing the canonical "Create" text: the token form of
/// `Create <list>.` parses back to exactly the one operation it renders.
pub proof fn law_create_round_trip(es: Seq<Seq<char>>)
    requires
        es.len() >= 1,
        nonreserved_elems(es),
    ensures
        spec_parse(create_statement(es)) == Result::<Seq<SpecOperation>, SpecError>::Ok(
            seq![
                SpecOperation::Create(
                    SpecOperationCreate { departments: es, modifier: Modifier::Plain },
                ),
            ],
        ),
{
    let t = create_statement(es);
    let c = canon_list(es).len() as int;
    lemma_vocab_distinct();
    lemma_canon_list_values(es);
    lemma_elems_ok(es);
    assert(t[0] == wtok("Create"@));
    let rest = seq_from(t, 1);
    assert(rest =~= seq![wstok()] + canon_list(es) + seq![ptok("."@)]);
    assert(rest[rest.len() - 1] == ptok("."@));
    assert forall|j: int| 0 <= j < rest.len() - 1 implies canon_value_ok(
        (#[trigger] rest[j]).value,
    ) || rest[j] == wstok() || rest[j].value is Word by {
        if 1 <= j {
            assert(rest[j] == canon_list(es)[j - 1]);
        }
    }
    lemma_body_is_whole_statement(rest);
    let k = op_token_count(rest);
    assert(k == rest.len());
    assert(rest.take(k) =~= rest);
    // the department list
    assert(rest.subrange(1, 1 + c) =~= canon_list(es));
    assert(rest[1 + c] == ptok("."@));
    assert(list_loop(rest, spec_terminators(), 0, Seq::empty(), Option::None) == list_loop(
        rest,
        spec_terminators(),
        1,
        Seq::empty(),
        Option::None,
    ));
    lemma_walk_list(rest, spec_terminators(), 1, Seq::empty(), Option::None, es, 0);
    assert(Seq::empty() + es =~= es);
    assert(spec_parse_list(rest, spec_terminators()) == (SpecListOutcome::Parsed {
        elems: es,
        consumed: 1 + c,
    }));
    // the terminator
    let tail = seq_from(rest, 1 + c);
    assert(tail =~= seq![ptok("."@)]);
    let op = SpecOperation::Create(SpecOperationCreate { departments: es, modifier: Modifier::Plain });
    assert(spec_handle_terminator(tail, op, t[0]) == Result::<SpecOperation, SpecError>::Ok(op));
    assert(spec_parse_create(t[0], rest) == Result::<SpecOperation, SpecError>::Ok(op));
    // the dispatcher
    assert(parse_loop(t, 0, Seq::empty()) == parse_loop(t, 1 + k, seq![op])) by {
        assert(Seq::<SpecOperation>::empty().push(op) =~= seq![op]);
    }
    assert(parse_loop(t, 1 + k, seq![op]) == Result::<Seq<SpecOperation>, SpecError>::Ok(
        seq![op],
    ));
}

/// Re-parsing the canonical "Show" text.
pub proof fn law_show_round_trip(es: Seq<Seq<char>>)
    requires
        es.len() >= 1,
        nonreserved_elems(es),
    ensures
        spec_parse(show_statement(es)) == Result::<Seq<SpecOperation>, SpecError>::Ok(
            seq![
                SpecOperation::Show(
                    SpecOperationShow { departments: es, modifier: Modifier::Plain },
                ),
            ],
        ),
{
    let t = show_statement(es);
    let c = canon_list(es).len() as int;
    lemma_vocab_distinct();
    lemma_canon_list_values(es);
    lemma_elems_ok(es);
    assert(t[0] == wtok("Show"@));
    let rest = seq_from(t, 1);
    assert(rest =~= seq![wstok()] + canon_list(es) + seq![ptok("."@)]);
    assert(rest[rest.len() - 1] == ptok("."@));
    assert forall|j: int| 0 <= j < rest.len() - 1 implies canon_value_ok(
        (#[trigger] rest[j]).value,
    ) || rest[j] == wstok() || rest[j].value is Word by {
        if 1 <= j {
            assert(rest[j] == canon_list(es)[j - 1]);
        }
    }
    lemma_body_is_whole_statement(rest);
    let k = op_token_count(rest);
    assert(rest.take(k) =~= rest);
    assert(rest.subrange(1, 1 + c) =~= canon_list(es));
    assert(rest[1 + c] == ptok("."@));
    assert(list_loop(rest, spec_terminators(), 0, Seq::empty(), Option::None) == list_loop(
        rest,
        spec_terminators(),
        1,
        Seq::empty(),
        Option::None,
    ));
    lemma_walk_list(rest, spec_terminators(), 1, Seq::empty(), Option::None, es, 0);
    assert(Seq::empty() + es =~= es);
    assert(spec_parse_list(rest, spec_terminators()) == (SpecListOutcome::Parsed {
        elems: es,
        consumed: 1 + c,
    }));
    let tail = seq_from(rest, 1 + c);
    assert(tail =~= seq![ptok("."@)]);
    let op = SpecOperation::Show(SpecOperationShow { departments: es, modifier: Modifier::Plain });
    assert(spec_handle_terminator(tail, op, t[0]) == Result::<SpecOperation, SpecError>::Ok(op));
    assert(spec_parse_show(t[0], rest) == Result::<SpecOperation, SpecError>::Ok(op));
    assert(parse_loop(t, 0, Seq::empty()) == parse_loop(t, 1 + k, seq![op])) by {
        assert(Seq::<SpecOperation>::empty().push(op) =~= seq![op]);
    }
    assert(parse_loop(t, 1 + k, seq![op]) == Result::<Seq<SpecOperation>, SpecError>::Ok(
        seq![op],
    ));
}

/// Re-parsing the canonical "Remove" text that names only departments:
/// the parsed names list is empty.
pub proof fn law_remove_departments_round_trip(es: Seq<Seq<char>>)
    requires
        es.len() >= 1,
        nonreserved_elems(es),
    ensures
        spec_parse(remove_departments_statement(es)) == Result::<
            Seq<SpecOperation>,
            SpecError,
        >::Ok(
            seq![
                SpecOperation::Remove(
                    SpecOperationRemove {
                        names: Seq::empty(),
                        departments: es,
                        modifier: Modifier::Plain,
                    },
                ),
            ],
        ),
{
    let t = remove_departments_statement(es);
    let c = canon_list(es).len() as int;
    lemma_vocab_distinct();
    lemma_canon_list_values(es);
    lemma_elems_ok(es);
    assert(t[0] == wtok("Remove"@));
    let rest = seq_from(t, 1);
    assert(rest =~= seq![wstok()] + canon_list(es) + seq![ptok("."@)]);
    assert(rest[rest.len() - 1] == ptok("."@));
    assert forall|j: int| 0 <= j < rest.len() - 1 implies canon_value_ok(
        (#[trigger] rest[j]).value,
    ) || rest[j] == wstok() || rest[j].value is Word by {
        if 1 <= j {
            assert(rest[j] == canon_list(es)[j - 1]);
        }
    }
    lemma_body_is_whole_statement(rest);
    let k = op_token_count(rest);
    assert(rest.take(k) =~= rest);
    assert(rest.subrange(1, 1 + c) =~= canon_list(es));
    assert(rest[1 + c] == ptok("."@));
    // the first list stops at the full stop
    assert(spec_remove_list_terminators().contains(sep_plain())) by {
        assert(spec_remove_list_terminators()[1] == sep_plain());
    }
    assert(list_loop(rest, spec_remove_list_terminators(), 0, Seq::empty(), Option::None)
        == list_loop(rest, spec_remove_list_terminators(), 1, Seq::empty(), Option::None));
    lemma_walk_list(rest, spec_remove_list_terminators(), 1, Seq::empty(), Option::None, es, 0);
    assert(Seq::empty() + es =~= es);
    assert(spec_parse_list(rest, spec_remove_list_terminators()) == (SpecListOutcome::Parsed {
        elems: es,
        consumed: 1 + c,
    }));
    // no second list is left
    let sub2 = seq_from(rest, 1 + c + 1);
    assert(sub2 =~= Seq::<SpecToken>::empty());
    assert(spec_parse_list(sub2, spec_terminators()) == (SpecListOutcome::Failed {
        unexpected: Option::None,
        has_elems: false,
    }));
    assert(rest[1 + c].value != linker_from());
    let tail = seq_from(rest, 1 + c);
    assert(tail =~= seq![ptok("."@)]);
    let op = SpecOperation::Remove(
        SpecOperationRemove { names: Seq::empty(), departments: es, modifier: Modifier::Plain },
    );
    assert(spec_handle_terminator(tail, op, t[0]) == Result::<SpecOperation, SpecError>::Ok(op));
    assert(spec_parse_remove(t[0], rest) == Result::<SpecOperation, SpecError>::Ok(op));
    assert(parse_loop(t, 0, Seq::empty()) == parse_loop(t, 1 + k, seq![op])) by {
        assert(Seq::<SpecOperation>::empty().push(op) =~= seq![op]);
    }
    assert(parse_loop(t, 1 + k, seq![op]) == Result::<Seq<SpecOperation>, SpecError>::Ok(
        seq![op],
    ));
}

/// Re-parsing the canonical "Add" text: the names list ends at "to", the
/// departments list at the full stop.
#[verifier::rlimit(100)]
#[verifier::spinoff_prover]
pub proof fn law_add_round_trip(ns: Seq<Seq<char>>, ds: Seq<Seq<char>>)
    requires
        ns.len() >= 1,
        ds.len() >= 1,
        nonreserved_elems(ns),
        nonreserved_elems(ds),
    ensures
        spec_parse(add_statement(ns, ds)) == Result::<Seq<SpecOperation>, SpecError>::Ok(
            seq![
                SpecOperation::Add(
                    SpecOperationAdd { names: ns, departments: ds, modifier: Modifier::Plain },
                ),
            ],
        ),
{
    let t = add_statement(ns, ds);
    let cn = canon_list(ns).len() as int;
    let cd = canon_list(ds).len() as int;
    lemma_vocab_distinct();
    lemma_canon_list_values(ns);
    lemma_canon_list_values(ds);
    lemma_elems_ok(ns);
    lemma_elems_ok(ds);
    assert(t[0] == wtok("Add"@));
    let rest = seq_from(t, 1);
    assert(rest =~= seq![wstok()] + canon_list(ns) + seq![wstok(), wtok("to"@), wstok()]
        + canon_list(ds) + seq![ptok("."@)]);
    assert(rest.len() == 5 + cn + cd);
    assert(rest[rest.len() - 1] == ptok("."@));
    assert forall|j: int| 0 <= j < rest.len() - 1 implies canon_value_ok(
        (#[trigger] rest[j]).value,
    ) || rest[j] == wstok() || rest[j].value is Word by {
        if 1 <= j < 1 + cn {
            assert(rest[j] == canon_list(ns)[j - 1]);
        }
        if 4 + cn <= j < 4 + cn + cd {
            assert(rest[j] == canon_list(ds)[j - 4 - cn]);
        }
    }
    lemma_body_is_whole_statement(rest);
    let k = op_token_count(rest);
    assert(rest.take(k) =~= rest);
    // the names list ends at "to"
    assert(rest.subrange(1, 1 + cn) =~= canon_list(ns));
    assert(rest[1 + cn] == wstok());
    assert(rest[2 + cn] == wtok("to"@));
    assert(list_loop(rest, seq![linker_to()], 0, Seq::empty(), Option::None) == list_loop(
        rest,
        seq![linker_to()],
        1,
        Seq::empty(),
        Option::None,
    ));
    lemma_walk_list(rest, seq![linker_to()], 1, Seq::empty(), Option::None, ns, 1);
    assert(Seq::empty() + ns =~= ns);
    assert(spec_parse_list(rest, seq![linker_to()]) == (SpecListOutcome::Parsed {
        elems: ns,
        consumed: 2 + cn,
    }));
    // the departments list ends at the full stop
    let sub2 = seq_from(rest, 3 + cn);
    assert(sub2 =~= seq![wstok()] + canon_list(ds) + seq![ptok("."@)]);
    assert(sub2.subrange(1, 1 + cd) =~= canon_list(ds));
    assert(sub2[1 + cd] == ptok("."@));
    assert(list_loop(sub2, spec_terminators(), 0, Seq::empty(), Option::None) == list_loop(
        sub2,
        spec_terminators(),
        1,
        Seq::empty(),
        Option::None,
    ));
    lemma_walk_list(sub2, spec_terminators(), 1, Seq::empty(), Option::None, ds, 0);
    assert(Seq::empty() + ds =~= ds);
    assert(spec_parse_list(sub2, spec_terminators()) == (SpecListOutcome::Parsed {
        elems: ds,
        consumed: 1 + cd,
    }));
    // the terminator
    let tail = seq_from(rest, 4 + cn + cd);
    assert(tail =~= seq![ptok("."@)]);
    let op = SpecOperation::Add(
        SpecOperationAdd { names: ns, departments: ds, modifier: Modifier::Plain },
    );
    assert(spec_handle_terminator(tail, op, t[0]) == Result::<SpecOperation, SpecError>::Ok(op));
    assert(spec_parse_add(t[0], rest) == Result::<SpecOperation, SpecError>::Ok(op));
    assert(parse_loop(t, 0, Seq::empty()) == parse_loop(t, 1 + k, seq![op])) by {
        assert(Seq::<SpecOperation>::empty().push(op) =~= seq![op]);
    }
    assert(parse_loop(t, 1 + k, seq![op]) == Result::<Seq<SpecOperation>, SpecError>::Ok(
        seq![op],
    ));
}

/// Re-parsing the canonical "Remove" text with names and departments: the
/// first list is reinterpreted as the names, the list after "from" as the
/// departments.
#[verifier::rlimit(100)]
#[verifier::spinoff_prover]
pub proof fn law_remove_round_trip(ns: Seq<Seq<char>>, ds: Seq<Seq<char>>)
    requires
        ns.len() >= 1,
        ds.len() >= 1,
        nonreserved_elems(ns),
        nonreserved_elems(ds),
    ensures
        spec_parse(remove_statement(ns, ds)) == Result::<Seq<SpecOperation>, SpecError>::Ok(
            seq![
                SpecOperation::Remove(
                    SpecOperationRemove { names: ns, departments: ds, modifier: Modifier::Plain },
                ),
            ],
        ),
{
    let t = remove_statement(ns, ds);
    let cn = canon_list(ns).len() as int;
    let cd = canon_list(ds).len() as int;
    lemma_vocab_distinct();
    lemma_canon_list_values(ns);
    lemma_canon_list_values(ds);
    lemma_elems_ok(ns);
    lemma_elems_ok(ds);
    assert(t[0] == wtok("Remove"@));
    let rest = seq_from(t, 1);
    assert(rest =~= seq![wstok()] + canon_list(ns) + seq![wstok(), wtok("from"@), wstok()]
        + canon_list(ds) + seq![ptok("."@)]);
    assert(rest.len() == 5 + cn + cd);
    assert(rest[rest.len() - 1] == ptok("."@));
    assert forall|j: int| 0 <= j < rest.len() - 1 implies canon_value_ok(
        (#[trigger] rest[j]).value,
    ) || rest[j] == wstok() || rest[j].value is Word by {
        if 1 <= j < 1 + cn {
            assert(rest[j] == canon_list(ns)[j - 1]);
        }
        if 4 + cn <= j < 4 + cn + cd {
            assert(rest[j] == canon_list(ds)[j - 4 - cn]);
        }
    }
    lemma_body_is_whole_statement(rest);
    let k = op_token_count(rest);
    assert(rest.take(k) =~= rest);
    // the first list ends at "from"
    assert(rest.subrange(1, 1 + cn) =~= canon_list(ns));
    assert(rest[1 + cn] == wstok());
    assert(rest[2 + cn] == wtok("from"@));
    assert(list_loop(rest, spec_remove_list_terminators(), 0, Seq::empty(), Option::None)
        == list_loop(rest, spec_remove_list_terminators(), 1, Seq::empty(), Option::None));
    lemma_walk_list(rest, spec_remove_list_terminators(), 1, Seq::empty(), Option::None, ns, 1);
    assert(Seq::empty() + ns =~= ns);
    assert(spec_parse_list(rest, spec_remove_list_terminators()) == (SpecListOutcome::Parsed {
        elems: ns,
        consumed: 2 + cn,
    }));
    // the departments list after "from" ends at the full stop
    let sub2 = seq_from(rest, 3 + cn);
    assert(sub2 =~= seq![wstok()] + canon_list(ds) + seq![ptok("."@)]);
    assert(sub2.subrange(1, 1 + cd) =~= canon_list(ds));
    assert(sub2[1 + cd] == ptok("."@));
    assert(list_loop(sub2, spec_terminators(), 0, Seq::empty(), Option::None) == list_loop(
        sub2,
        spec_terminators(),
        1,
        Seq::empty(),
        Option::None,
    ));
    lemma_walk_list(sub2, spec_terminators(), 1, Seq::empty(), Option::None, ds, 0);
    assert(Seq::empty() + ds =~= ds);
    assert(spec_parse_list(sub2, spec_terminators()) == (SpecListOutcome::Parsed {
        elems: ds,
        consumed: 1 + cd,
    }));
    // the terminator
    let tail = seq_from(rest, 4 + cn + cd);
    assert(tail =~= seq![ptok("."@)]);
    let op = SpecOperation::Remove(
        SpecOperationRemove { names: ns, departments: ds, modifier: Modifier::Plain },
    );
    assert(spec_handle_terminator(tail, op, t[0]) == Result::<SpecOperation, SpecError>::Ok(op));
    assert(spec_parse_remove(t[0], rest) == Result::<SpecOperation, SpecError>::Ok(op));
    assert(parse_loop(t, 0, Seq::empty()) == parse_loop(t, 1 + k, seq![op])) by {
        assert(Seq::<SpecOperation>::empty().push(op) =~= seq![op]);
    }
    assert(parse_loop(t, 1 + k, seq![op]) == Result::<Seq<SpecOperation>, SpecError>::Ok(
        seq![op],
    ));
}

// ---------------------------------------------------------------------------
// The canonical tokens carry exactly the rendered text
// ---------------------------------------------------------------------------
/// The texts of a token sequence, in order.
pub open spec fn texts_of(ts: Seq<SpecToken>) -> Seq<char>
    decreases ts.len(),
{
    if ts.len() == 0 {
        Seq::empty()
    } else {
        tv_text(ts[0].value) + texts_of(ts.drop_first())
    }
}

proof fn lemma_texts_of_concat(a: Seq<SpecToken>, b: Seq<SpecToken>)
    ensures
        texts_of(a + b) == texts_of(a) + texts_of(b),
    decreases a.len(),
{
    if a.len() == 0 {
        assert(a + b =~= b);
        assert(texts_of(a) + texts_of(b) =~= texts_of(b));
    } else {
        lemma_texts_of_concat(a.drop_first(), b);
        assert((a + b).drop_first() =~= a.drop_first() + b);
        assert((a + b)[0] == a[0]);
        assert(texts_of(a + b) =~= texts_of(a) + texts_of(b));
    }
}

proof fn lemma_join_sep_front(es: Seq<Seq<char>>, sep: Seq<char>)
    requires
        es.len() >= 2,
    ensures
        crate::util::join_sep(es, sep) == es[0] + sep + crate::util::join_sep(
            es.drop_first(),
            sep,
        ),
    decreases es.len(),
{
    if es.len() == 2 {
        reveal_with_fuel(crate::util::join_sep, 3);
        assert(es.drop_last() =~= seq![es[0]]);
        assert(es.drop_first() =~= seq![es[1]]);
        assert(crate::util::join_sep(es, sep) == crate::util::join_sep(es.drop_last(), sep) + sep
            + es.last());
        assert(crate::util::join_sep(seq![es[0]], sep) == es[0]);
        assert(crate::util::join_sep(seq![es[1]], sep) == es[1]);
    } else {
        lemma_join_sep_front(es.drop_last(), sep);
        assert(es.drop_last()[0] == es[0]);
        assert(es.drop_last().drop_first() =~= es.drop_first().drop_last());
        assert(es.drop_first().last() == es.last());
        assert(crate::util::join_sep(es, sep) == crate::util::join_sep(es.drop_last(), sep) + sep
            + es.last());
        assert(es[0] + sep + crate::util::join_sep(es.drop_first(), sep) =~= crate::util::join_sep(
            es,
            sep,
        ));
    }
}

proof fn lemma_canon_tail_text(es: Seq<Seq<char>>)
    requires
        es.len() >= 2,
    ensures
        texts_of(canon_tail(es)) == crate::util::join_sep(es.drop_last(), ", "@) + ","@ + " "@
            + "and"@ + " "@ + es.last(),
    decreases es.len(),
{
    reveal_strlit(", ");
    reveal_strlit(",");
    reveal_strlit(" ");
    if es.len() == 2 {
        assert(es.drop_last() =~= seq![es[0]]);
        assert(texts_of(canon_tail(es)) =~= es[0] + ","@ + " "@ + "and"@ + " "@ + es[1]) by {
            reveal_with_fuel(texts_of, 7);
        }
    } else {
        lemma_canon_tail_text(es.drop_first());
        lemma_join_sep_front(es.drop_last(), ", "@);
        assert(es.drop_last()[0] == es[0]);
        assert(es.drop_last().drop_first() =~= es.drop_first().drop_last());
        assert(es.drop_first().last() == es.last());
        lemma_texts_of_concat(
            seq![wtok(es[0]), ptok(","@), wstok()],
            canon_tail(es.drop_first()),
        );
        assert(texts_of(seq![wtok(es[0]), ptok(","@), wstok()]) =~= es[0] + ","@ + " "@) by {
            reveal_with_fuel(texts_of, 4);
        }
        assert(", "@ =~= ","@ + " "@);
        assert(texts_of(canon_tail(es)) =~= crate::util::join_sep(es.drop_last(), ", "@) + ","@
            + " "@ + "and"@ + " "@ + es.last());
    }
}

/// The texts of a canonical list are exactly the canonical list text the
/// renderer produces.
pub proof fn law_canon_list_text(es: Seq<Seq<char>>)
    requires
        es.len() >= 1,
    ensures
        texts_of(canon_list(es)) == crate::operation::spec_list_text(es),
{
    reveal_strlit(", ");
    reveal_strlit(",");
    reveal_strlit(" ");
    reveal_strlit("and");
    if es.len() == 1 {
        assert(texts_of(canon_list(es)) =~= es[0]) by {
            reveal_with_fuel(texts_of, 2);
        }
    } else if es.len() == 2 {
        assert(es.drop_last() =~= seq![es[0]]);
        assert(crate::operation::spec_list_text(es) == es[0] + Seq::<char>::empty() + " "@
            + "and"@ + " "@ + es[1]);
        assert(texts_of(canon_list(es)) =~= crate::operation::spec_list_text(es)) by {
            reveal_with_fuel(texts_of, 6);
        }
    } else {
        lemma_canon_tail_text(es);
        assert(crate::operation::spec_list_text(es) == crate::util::join_sep(
            es.drop_last(),
            ", "@,
        ) + ","@ + " "@ + "and"@ + " "@ + es.last());
        assert(texts_of(canon_list(es)) =~= crate::operation::spec_list_text(es));
    }
}

/// The texts of the canonical "Create" statement are its rendering followed
/// by the plain terminator; together with the round-trip law above, what a
/// plain "Create" renders to parses back to itself.
pub proof fn law_create_statement_text(es: Seq<Seq<char>>)
    requires
        es.len() >= 1,
    ensures
        texts_of(create_statement(es)) == crate::operation::spec_render_create(
            SpecOperationCreate { departments: es, modifier: Modifier::Plain },
        ) + "."@,
{
    law_canon_list_text(es);
    lemma_texts_of_concat(seq![wtok("Create"@), wstok()] + canon_list(es), seq![ptok("."@)]);
    lemma_texts_of_concat(seq![wtok("Create"@), wstok()], canon_list(es));
    assert(texts_of(seq![wtok("Create"@), wstok()]) =~= "Create"@ + " "@) by {
        reveal_with_fuel(texts_of, 3);
    }
    assert(texts_of(seq![ptok("."@)]) =~= "."@) by {
        reveal_with_fuel(texts_of, 2);
    }
    assert(texts_of(create_statement(es)) =~= crate::operation::spec_render_create(
        SpecOperationCreate { departments: es, modifier: Modifier::Plain },
    ) + "."@);
}

/// The texts of the canonical "Show" statement are its rendering followed
/// by the plain terminator.
pub proof fn law_show_statement_text(es: Seq<Seq<char>>)
    requires
        es.len() >= 1,
    ensures
        texts_of(show_statement(es)) == crate::operation::spec_render_show(
            SpecOperationShow { departments: es, modifier: Modifier::Plain },
        ) + "."@,
{
    law_canon_list_text(es);
    lemma_texts_of_concat(seq![wtok("Show"@), wstok()] + canon_list(es), seq![ptok("."@)]);
    lemma_texts_of_concat(seq![wtok("Show"@), wstok()], canon_list(es));
    assert(texts_of(seq![wtok("Show"@), wstok()]) =~= "Show"@ + " "@) by {
        reveal_with_fuel(texts_of, 3);
    }
    assert(texts_of(seq![ptok("."@)]) =~= "."@) by {
        reveal_with_fuel(texts_of, 2);
    }
    assert(texts_of(show_statement(es)) =~= crate::operation::spec_render_show(
        SpecOperationShow { departments: es, modifier: Modifier::Plain },
    ) + "."@);
}

/// The texts of the canonical "Add" statement are its rendering followed by
/// the plain terminator.
pub proof fn law_add_statement_text(ns: Seq<Seq<char>>, ds: Seq<Seq<char>>)
    requires
        ns.len() >= 1,
        ds.len() >= 1,
    ensures
        texts_of(add_statement(ns, ds)) == crate::operation::spec_render_add(
            SpecOperationAdd { names: ns, departments: ds, modifier: Modifier::Plain },
        ) + "."@,
{
    reveal_strlit(" to ");
    reveal_strlit("to");
    reveal_strlit(" ");
    law_canon_list_text(ns);
    law_canon_list_text(ds);
    let a = seq![wtok("Add"@), wstok()];
    let mid = seq![wstok(), wtok("to"@), wstok()];
    lemma_texts_of_concat(a + canon_list(ns) + mid + canon_list(ds), seq![ptok("."@)]);
    lemma_texts_of_concat(a + canon_list(ns) + mid, canon_list(ds));
    lemma_texts_of_concat(a + canon_list(ns), mid);
    lemma_texts_of_concat(a, canon_list(ns));
    assert(texts_of(a) =~= "Add"@ + " "@) by {
        reveal_with_fuel(texts_of, 3);
    }
    assert(texts_of(mid) =~= " "@ + "to"@ + " "@) by {
        reveal_with_fuel(texts_of, 4);
    }
    assert(texts_of(seq![ptok("."@)]) =~= "."@) by {
        reveal_with_fuel(texts_of, 2);
    }
    assert(" to "@ =~= " "@ + "to"@ + " "@);
    assert(texts_of(add_statement(ns, ds)) =~= crate::operation::spec_render_add(
        SpecOperationAdd { names: ns, departments: ds, modifier: Modifier::Plain },
    ) + "."@);
}

/// The texts of the canonical "Remove" statement are its rendering followed
/// by the plain terminator.
pub proof fn law_remove_statement_text(ns: Seq<Seq<char>>, ds: Seq<Seq<char>>)
    requires
        ns.len() >= 1,
        ds.len() >= 1,
    ensures
        texts_of(remove_statement(ns, ds)) == crate::operation::spec_render_remove(
            SpecOperationRemove { names: ns, departments: ds, modifier: Modifier::Plain },
        ) + "."@,
{
    reveal_strlit(" from");
    reveal_strlit("from");
    reveal_strlit(" ");
    law_canon_list_text(ns);
    law_canon_list_text(ds);
    let a = seq![wtok("Remove"@), wstok()];
    let mid = seq![wstok(), wtok("from"@), wstok()];
    lemma_texts_of_concat(a + canon_list(ns) + mid + canon_list(ds), seq![ptok("."@)]);
    lemma_texts_of_concat(a + canon_list(ns) + mid, canon_list(ds));
    lemma_texts_of_concat(a + canon_list(ns), mid);
    lemma_texts_of_concat(a, canon_list(ns));
    assert(texts_of(a) =~= "Remove"@ + " "@) by {
        reveal_with_fuel(texts_of, 3);
    }
    assert(texts_of(mid) =~= " "@ + "from"@ + " "@) by {
        reveal_with_fuel(texts_of, 4);
    }
    assert(texts_of(seq![ptok("."@)]) =~= "."@) by {
        reveal_with_fuel(texts_of, 2);
    }
    assert(" from"@ =~= " "@ + "from"@);
    assert(texts_of(remove_statement(ns, ds)) =~= crate::operation::spec_render_remove(
        SpecOperationRemove { names: ns, departments: ds, modifier: Modifier::Plain },
    ) + "."@);
}

/// The texts of the canonical departments-only "Remove" statement are its
/// rendering followed by the plain terminator.
pub proof fn law_remove_departments_statement_text(es: Seq<Seq<char>>)
    requires
        es.len() >= 1,
    ensures
        texts_of(remove_departments_statement(es)) == crate::operation::spec_render_remove(
            SpecOperationRemove {
                names: Seq::empty(),
                departments: es,
                modifier: Modifier::Plain,
            },
        ) + "."@,
{
    law_canon_list_text(es);
    lemma_texts_of_concat(seq![wtok("Remove"@), wstok()] + canon_list(es), seq![ptok("."@)]);
    lemma_texts_of_concat(seq![wtok("Remove"@), wstok()], canon_list(es));
    assert(texts_of(seq![wtok("Remove"@), wstok()]) =~= "Remove"@ + " "@) by {
        reveal_with_fuel(texts_of, 3);
    }
    assert(texts_of(seq![ptok("."@)]) =~= "."@) by {
        reveal_with_fuel(texts_of, 2);
    }
    assert(texts_of(remove_departments_statement(es))
        =~= crate::operation::spec_render_remove(
        SpecOperationRemove { names: Seq::empty(), departments: es, modifier: Modifier::Plain },
    ) + "."@);
}

// ---------------------------------------------------------------------------
// Column numbering
// ---------------------------------------------------------------------------
/// Within one line, each token's column is 1 plus the grapheme clusters of
/// everything before it on that line: columns count what a user sees, not
/// bytes or code points.
pub proof fn law_columns_count_graphemes(segs: Seq<Seq<char>>, line: Seq<char>, ln: int, k: int)
    requires
        0 <= k < segs.len(),
    ensures
        lex_segments(segs, line, ln, 1)[k].column_number == 1 + sum_graphemes(segs.take(k)),
{
    lemma_columns(segs, line, ln, 1, k);
}

proof fn lemma_columns(segs: Seq<Seq<char>>, line: Seq<char>, ln: int, col: int, k: int)
    requires
        0 <= k < segs.len(),
    ensures
        lex_segments(segs, line, ln, col)[k].column_number == col + sum_graphemes(segs.take(k)),
    decreases k,
{
    lemma_lex_segments_len(segs, line, ln, col);
    if k == 0 {
        assert(segs.take(0) =~= Seq::<Seq<char>>::empty());
    } else {
        lemma_columns(
            segs.drop_first(),
            line,
            ln,
            col + crate::util::grapheme_count(segs[0]),
            k - 1,
        );
        assert(segs.drop_first().take(k - 1) =~= segs.take(k).drop_first());
        assert(sum_graphemes(segs.take(k)) == crate::util::grapheme_count(segs.take(k)[0])
            + sum_graphemes(segs.take(k).drop_first()));
        assert(segs.take(k)[0] == segs[0]);
        assert(lex_segments(segs, line, ln, col)[k] == lex_segments(
            segs.drop_first(),
            line,
            ln,
            col + crate::util::grapheme_count(segs[0]),
        )[k - 1]);
    }
}

proof fn lemma_lex_lines_index(lines: Seq<Seq<char>>, first_no: int, j: int)
    requires
        0 <= j < lex_lines(lines, first_no).len(),
    ensures
        exists|i: int, k: int|
            0 <= i < lines.len() && 0 <= k < word_bounds(#[trigger] lines[i]).len() && lex_lines(
                lines,
                first_no,
            )[j] == lex_segments(word_bounds(lines[i]), lines[i], first_no + i, 1)[#[trigger] (
            k + 0
            )],
    decreases lines.len(),
{
    let head = lex_segments(word_bounds(lines[0]), lines[0], first_no, 1);
    let tail = lex_lines(lines.drop_first(), first_no + 1);
    lemma_lex_segments_len(word_bounds(lines[0]), lines[0], first_no, 1);
    if j < head.len() {
        assert(lex_lines(lines, first_no)[j] == head[j]);
        assert(0 <= 0 < lines.len() && 0 <= j < word_bounds(lines[0]).len() && lex_lines(
            lines,
            first_no,
        )[j] == lex_segments(word_bounds(lines[0]), lines[0], first_no + 0, 1)[j + 0]);
    } else {
        assert(lex_lines(lines, first_no)[j] == tail[j - head.len()]);
        lemma_lex_lines_index(lines.drop_first(), first_no + 1, j - head.len());
        let (i2, k2) = choose|i2: int, k2: int|
            0 <= i2 < lines.drop_first().len() && 0 <= k2 < word_bounds(
                #[trigger] lines.drop_first()[i2],
            ).len() && tail[j - head.len()] == lex_segments(
                word_bounds(lines.drop_first()[i2]),
                lines.drop_first()[i2],
                first_no + 1 + i2,
                1,
            )[#[trigger] (k2 + 0)];
        assert(lines.drop_first()[i2] == lines[i2 + 1]);
        assert(0 <= i2 + 1 < lines.len() && 0 <= k2 < word_bounds(lines[i2 + 1]).len()
            && lex_lines(lines, first_no)[j] == lex_segments(
            word_bounds(lines[i2 + 1]),
            lines[i2 + 1],
            first_no + (i2 + 1),
            1,
        )[k2 + 0]);
    }
}

/// Every token of a source text sits on one of its lines, at that line's
/// number, and its column is 1 plus the grapheme clusters of the segments
/// before it on that line: columns count what a user sees, never bytes or
/// code points, across the whole token stream.
pub proof fn law_token_position(s: Seq<char>, j: int)
    requires
        0 <= j < spec_tokens(s).len(),
    ensures
        exists|i: int, k: int|
            #![trigger word_bounds(lines_of(s)[i]).take(k)]
            0 <= i < lines_of(s).len() && 0 <= k < word_bounds(lines_of(s)[i]).len()
                && spec_tokens(s)[j].line == lines_of(s)[i] && spec_tokens(s)[j].line_number == 1
                + i && spec_tokens(s)[j].value == classify(word_bounds(lines_of(s)[i])[k])
                && spec_tokens(s)[j].column_number == 1 + sum_graphemes(
                word_bounds(lines_of(s)[i]).take(k),
            ),
{
    lemma_lex_lines_index(lines_of(s), 1, j);
    let (i, k) = choose|i: int, k: int|
        0 <= i < lines_of(s).len() && 0 <= k < word_bounds(#[trigger] lines_of(s)[i]).len()
            && lex_lines(lines_of(s), 1)[j] == lex_segments(
            word_bounds(lines_of(s)[i]),
            lines_of(s)[i],
            1 + i,
            1,
        )[#[trigger] (k + 0)];
    lemma_columns(word_bounds(lines_of(s)[i]), lines_of(s)[i], 1 + i, 1, k);
    lemma_lex_segments_at(word_bounds(lines_of(s)[i]), lines_of(s)[i], 1 + i, 1, k);
    lemma_lex_segments_line_fields(word_bounds(lines_of(s)[i]), lines_of(s)[i], 1 + i, 1, k);
    assert(0 <= i < lines_of(s).len() && 0 <= k < word_bounds(lines_of(s)[i]).len()
        && spec_tokens(s)[j].line == lines_of(s)[i] && spec_tokens(s)[j].line_number == 1 + i
        && spec_tokens(s)[j].value == classify(word_bounds(lines_of(s)[i])[k]) && spec_tokens(
        s,
    )[j].column_number == 1 + sum_graphemes(word_bounds(lines_of(s)[i]).take(k)));
}

proof fn lemma_lex_segments_line_fields(
    segs: Seq<Seq<char>>,
    line: Seq<char>,
    ln: int,
    col: int,
    k: int,
)
    requires
        0 <= k < segs.len(),
    ensures
        lex_segments(segs, line, ln, col)[k].line == line,
        lex_segments(segs, line, ln, col)[k].line_number == ln,
    decreases k,
{
    lemma_lex_segments_len(segs, line, ln, col);
    if k > 0 {
        lemma_lex_segments_line_fields(
            segs.drop_first(),
            line,
            ln,
            col + crate::util::grapheme_count(segs[0]),
            k - 1,
        );
    }
}

} // verus!

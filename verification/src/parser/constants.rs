use super::model::{
    kw_add, kw_create, kw_remove, kw_show, linker_and, linker_from, linker_to, spec_keywords,
    spec_remove_list_terminators, spec_reserved, spec_terminators,
};
use crate::lexer::{tv_views, SpecTokenValue, TokenValue};
use crate::parser::error::spec_expected_list_tokens;
use crate::util::str_eq;
use vstd::prelude::*;

verus! {

pub(crate) fn tv_is_word(v: &TokenValue, w: &str) -> (r: bool)
    ensures
        r == (v@ == SpecTokenValue::Word(w@)),
{
    match v {
        TokenValue::Word(s) => str_eq(s.as_str(), w),
        _ => false,
    }
}

pub(crate) fn tv_is_punct(v: &TokenValue, p: &str) -> (r: bool)
    ensures
        r == (v@ == SpecTokenValue::Punctuation(p@)),
{
    match v {
        TokenValue::Punctuation(s) => str_eq(s.as_str(), p),
        _ => false,
    }
}

/// Whether this token value is one of the seven reserved words.
pub(crate) fn is_reserved(v: &TokenValue) -> (r: bool)
    ensures
        r == spec_reserved().contains(v@),
{
    let r = tv_is_word(v, "Add") || tv_is_word(v, "Create") || tv_is_word(v, "Remove")
        || tv_is_word(v, "Show") || tv_is_word(v, "and") || tv_is_word(v, "to") || tv_is_word(
        v,
        "from",
    );
    proof {
        assert(spec_reserved()[0] == kw_add());
        assert(spec_reserved()[1] == kw_create());
        assert(spec_reserved()[2] == kw_remove());
        assert(spec_reserved()[3] == kw_show());
        assert(spec_reserved()[4] == linker_and());
        assert(spec_reserved()[5] == linker_to());
        assert(spec_reserved()[6] == linker_from());
        if !r {
            assert(forall|i: int|
                0 <= i < spec_reserved().len() ==> #[trigger] spec_reserved()[i] != v@);
        }
    }
    r
}

pub(crate) fn terminators() -> (r: Vec<TokenValue>)
    ensures
        tv_views(r@) == spec_terminators(),
{
    let mut r: Vec<TokenValue> = Vec::new();
    r.push(TokenValue::Punctuation(".".to_owned()));
    r.push(TokenValue::Punctuation("!".to_owned()));
    r.push(TokenValue::Punctuation("?".to_owned()));
    proof {
        assert(tv_views(r@) =~= spec_terminators());
    }
    r
}

pub(crate) fn remove_list_terminators() -> (r: Vec<TokenValue>)
    ensures
        tv_views(r@) == spec_remove_list_terminators(),
{
    let mut r: Vec<TokenValue> = Vec::new();
    r.push(TokenValue::Word("from".to_owned()));
    r.push(TokenValue::Punctuation(".".to_owned()));
    r.push(TokenValue::Punctuation("!".to_owned()));
    r.push(TokenValue::Punctuation("?".to_owned()));
    proof {
        assert(tv_views(r@) =~= spec_remove_list_terminators());
    }
    r
}

pub(crate) fn to_terminators() -> (r: Vec<TokenValue>)
    ensures
        tv_views(r@) == seq![linker_to()],
{
    let mut r: Vec<TokenValue> = Vec::new();
    r.push(TokenValue::Word("to".to_owned()));
    proof {
        assert(tv_views(r@) =~= seq![linker_to()]);
    }
    r
}

pub(crate) fn keywords() -> (r: Vec<TokenValue>)
    ensures
        tv_views(r@) == spec_keywords(),
{
    let mut r: Vec<TokenValue> = Vec::new();
    r.push(TokenValue::Word("Add".to_owned()));
    r.push(TokenValue::Word("Create".to_owned()));
    r.push(TokenValue::Word("Remove".to_owned()));
    r.push(TokenValue::Word("Show".to_owned()));
    proof {
        assert(tv_views(r@) =~= spec_keywords());
    }
    r
}

pub(crate) fn expected_list_tokens() -> (r: Vec<TokenValue>)
    ensures
        tv_views(r@) == spec_expected_list_tokens(),
{
    let mut r: Vec<TokenValue> = Vec::new();
    r.push(TokenValue::Whitespace);
    r.push(TokenValue::Word("".to_owned()));
    proof {
        assert(tv_views(r@) =~= spec_expected_list_tokens());
    }
    r
}

/// Whether `v` equals one of the values in `list`.
pub(crate) fn contains_tv(list: &[TokenValue], v: &TokenValue) -> (r: bool)
    ensures
        r == tv_views(list@).contains(v@),
{
    let mut i: usize = 0;
    while i < list.len()
        invariant
            0 <= i <= list@.len(),
            forall|j: int| 0 <= j < i ==> #[trigger] tv_views(list@)[j] != v@,
        decreases list@.len() - i,
    {
        let cand = vstd::slice::slice_index_get(list, i);
        if crate::lexer::tv_eq(cand, v) {
            proof {
                assert(tv_views(list@)[i as int] == v@);
            }
            return true;
        }
        i = i + 1;
    }
    proof {
        assert(!tv_views(list@).contains(v@));
    }
    false
}

} // verus!

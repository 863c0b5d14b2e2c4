use vstd::prelude::*;

verus! {

// Names for what the character-level Unicode queries return. Each is a pure
// function of its argument, computed by an outside crate (or std) behind one
// of the trusted wrappers below; everything else in the crate reasons about
// these names.

pub uninterp spec fn grapheme_count(s: Seq<char>) -> nat;

pub uninterp spec fn whitespace_char(c: char) -> bool;

pub uninterp spec fn letter_char(c: char) -> bool;

pub open spec fn all_whitespace(s: Seq<char>) -> bool {
    forall|i: int| 0 <= i < s.len() ==> whitespace_char(#[trigger] s[i])
}

pub open spec fn all_letters(s: Seq<char>) -> bool {
    forall|i: int| 0 <= i < s.len() ==> letter_char(#[trigger] s[i])
}

/// Relies on unicode_segmentation's `UnicodeSegmentation::graphemes` (with
/// extended grapheme clusters) and `Iterator::count`: the segmentation
/// depends on the characters alone; every cluster is a non-empty substring
/// and concatenating all clusters yields the original string, so the count
/// is at most the character count and is 0 exactly on the empty string.
#[verifier::external_body]
pub fn string_length(word: &str) -> (n: usize)
    ensures
        n == grapheme_count(word@),
        n <= word@.len(),
        (n == 0) <==> (word@.len() == 0),
{
    unicode_segmentation::UnicodeSegmentation::graphemes(word, true).count()
}

/// Relies on std's `char::is_whitespace`: the `White_Space` property depends
/// on the character alone, and the documentation names space, tab, carriage
/// return and line feed as whitespace.
#[verifier::external_body]
pub(crate) fn char_is_whitespace(c: char) -> (r: bool)
    ensures
        r == whitespace_char(c),
        (c == ' ' || c == '\t' || c == '\n' || c == '\r') ==> r,
{
    c.is_whitespace()
}

/// Relies on unic_ucd_category's `GeneralCategory::of` and
/// `GeneralCategory::is_letter`: the general category depends on the
/// character alone, and `is_letter` holds exactly of the five letter
/// categories.
#[verifier::external_body]
pub(crate) fn char_is_letter(c: char) -> (r: bool)
    ensures
        r == letter_char(c),
{
    unic_ucd_category::GeneralCategory::of(c).is_letter()
}

pub fn is_whitespace(s: &str) -> (r: bool)
    ensures
        r == all_whitespace(s@),
{
    let n = s.unicode_len();
    let mut i: usize = 0;
    while i < n
        invariant
            n == s@.len(),
            0 <= i <= n,
            forall|j: int| 0 <= j < i ==> whitespace_char(#[trigger] s@[j]),
        decreases n - i,
    {
        if !char_is_whitespace(s.get_char(i)) {
            return false;
        }
        i = i + 1;
    }
    true
}

pub fn is_alphabetic(s: &str) -> (r: bool)
    ensures
        r == all_letters(s@),
{
    let n = s.unicode_len();
    let mut i: usize = 0;
    while i < n
        invariant
            n == s@.len(),
            0 <= i <= n,
            forall|j: int| 0 <= j < i ==> letter_char(#[trigger] s@[j]),
        decreases n - i,
    {
        if !char_is_letter(s.get_char(i)) {
            return false;
        }
        i = i + 1;
    }
    true
}

pub fn str_eq(a: &str, b: &str) -> (r: bool)
    ensures
        r == (a@ == b@),
{
    let an = a.unicode_len();
    let bn = b.unicode_len();
    if an != bn {
        proof {
            assert(a@ != b@) by {
                assert(a@.len() != b@.len());
            }
        }
        return false;
    }
    let mut i: usize = 0;
    while i < an
        invariant
            an == a@.len(),
            an == b@.len(),
            0 <= i <= an,
            forall|j: int| 0 <= j < i ==> a@[j] == b@[j],
        decreases an - i,
    {
        if a.get_char(i) != b.get_char(i) {
            return false;
        }
        i = i + 1;
    }
    proof {
        assert(a@ =~= b@);
    }
    true
}

pub open spec fn repeat_of(piece: Seq<char>, n: nat) -> Seq<char>
    decreases n,
{
    if n == 0 {
        Seq::empty()
    } else {
        repeat_of(piece, (n - 1) as nat) + piece
    }
}

pub fn repeat_piece(piece: &str, n: usize) -> (r: String)
    ensures
        r@ == repeat_of(piece@, n as nat),
{
    let mut out = String::new();
    let mut i: usize = 0;
    while i < n
        invariant
            0 <= i <= n,
            out@ == repeat_of(piece@, i as nat),
        decreases n - i,
    {
        out.append(piece);
        i = i + 1;
    }
    out
}

/// The text of the caret display under a reproduced source line: a padding
/// of `col - 1` spaces, then one caret per grapheme cluster of the token's
/// text.
pub fn fmt_token_pointer(token_value: &str, col: usize) -> (r: (String, String))
    requires
        col >= 1,
    ensures
        r.0@ == repeat_of(" "@, (col - 1) as nat),
        r.1@ == repeat_of("^"@, grapheme_count(token_value@)),
{
    let padding = repeat_piece(" ", col - 1);
    let pointer = repeat_piece("^", string_length(token_value));
    (padding, pointer)
}

pub open spec fn join_sep(elems: Seq<Seq<char>>, sep: Seq<char>) -> Seq<char>
    decreases elems.len(),
{
    if elems.len() == 0 {
        Seq::empty()
    } else if elems.len() == 1 {
        elems[0]
    } else {
        join_sep(elems.drop_last(), sep) + sep + elems.last()
    }
}

/// The canonical list text: elements joined by `sep`, with the last element
/// joined by `linker` instead, preceded by a comma only when three or more
/// elements are present.
pub open spec fn spec_fmt_list(elems: Seq<Seq<char>>, sep: Seq<char>, linker: Seq<char>) -> Seq<
    char,
>
    decreases elems.len(),
{
    if elems.len() == 0 {
        Seq::empty()
    } else if elems.len() == 1 {
        elems[0]
    } else {
        join_sep(elems.drop_last(), sep) + (if elems.len() == 2 {
            Seq::<char>::empty()
        } else {
            ","@
        }) + " "@ + linker + " "@ + elems.last()
    }
}

proof fn lemma_join_sep_step(elems: Seq<Seq<char>>, sep: Seq<char>, j: int)
    requires
        1 <= j < elems.len(),
    ensures
        join_sep(elems.take(j + 1), sep) == join_sep(elems.take(j), sep) + sep + elems[j],
{
    assert(elems.take(j + 1).drop_last() =~= elems.take(j));
    assert(elems.take(j + 1).last() == elems[j]);
}

pub fn fmt_list(elems: &Vec<String>, sep: &str, linker: &str) -> (r: String)
    ensures
        r@ == spec_fmt_list(elems.deep_view(), sep@, linker@),
{
    let n = elems.len();
    if n == 0 {
        let r = String::new();
        return r;
    }
    if n == 1 {
        return elems[0].clone();
    }
    let mut out = elems[0].clone();
    proof {
        assert(elems.deep_view().take(1) =~= seq![elems.deep_view()[0]]);
        assert(out@ == join_sep(elems.deep_view().take(1), sep@));
    }
    let mut i: usize = 1;
    while i < n - 1
        invariant
            elems.deep_view().len() == n,
            n == elems@.len(),
            2 <= n,
            1 <= i <= n - 1,
            out@ == join_sep(elems.deep_view().take(i as int), sep@),
        decreases n - i,
    {
        out.append(sep);
        out.append(elems[i].as_str());
        proof {
            lemma_join_sep_step(elems.deep_view(), sep@, i as int);
        }
        i = i + 1;
    }
    if n > 2 {
        out.append(",");
    }
    out.append(" ");
    out.append(linker);
    out.append(" ");
    out.append(elems[n - 1].as_str());
    proof {
        assert(elems.deep_view().take((n - 1) as int) =~= elems.deep_view().drop_last());
        assert(out@ =~= spec_fmt_list(elems.deep_view(), sep@, linker@));
    }
    out
}

pub fn to_string_vec(v: Vec<&str>) -> (r: Vec<String>)
    ensures
        r.deep_view() == v.deep_view(),
{
    let mut r: Vec<String> = Vec::new();
    let mut i: usize = 0;
    while i < v.len()
        invariant
            0 <= i <= v@.len(),
            r@.len() == i,
            forall|j: int| 0 <= j < i ==> (#[trigger] r@[j])@ == v@[j]@,
        decreases v@.len() - i,
    {
        r.push(v[i].to_owned());
        i = i + 1;
    }
    proof {
        assert(r.deep_view() =~= v.deep_view());
    }
    r
}

/// The number of characters that remain when trailing whitespace is removed.
pub open spec fn trim_end_len(s: Seq<char>) -> nat
    decreases s.len(),
{
    if s.len() == 0 {
        0
    } else if whitespace_char(s.last()) {
        trim_end_len(s.drop_last())
    } else {
        s.len()
    }
}

pub open spec fn spec_trim_end(s: Seq<char>) -> Seq<char> {
    s.take(trim_end_len(s) as int)
}

pub proof fn lemma_trim_end_len_le(s: Seq<char>)
    ensures
        trim_end_len(s) <= s.len(),
    decreases s.len(),
{
    if s.len() > 0 && whitespace_char(s.last()) {
        lemma_trim_end_len_le(s.drop_last());
    }
}

pub(crate) fn trim_end_str(s: &str) -> (r: &str)
    ensures
        r@ == spec_trim_end(s@),
{
    let n = s.unicode_len();
    let mut k: usize = n;
    proof {
        assert(s@.take(n as int) =~= s@);
    }
    while k > 0
        invariant
            n == s@.len(),
            0 <= k <= n,
            trim_end_len(s@) == trim_end_len(s@.take(k as int)),
        decreases k,
    {
        let c = s.get_char(k - 1);
        if !char_is_whitespace(c) {
            proof {
                assert(s@.take(k as int).last() == s@[k - 1]);
                assert(trim_end_len(s@.take(k as int)) == k);
                lemma_trim_end_len_le(s@);
            }
            let r = s.substring_char(0, k);
            proof {
                assert(r@ =~= spec_trim_end(s@));
            }
            return r;
        }
        proof {
            assert(s@.take(k as int).drop_last() =~= s@.take(k - 1));
            assert(s@.take(k as int).last() == s@[k - 1]);
        }
        k = k - 1;
    }
    proof {
        assert(s@.take(0) =~= Seq::<char>::empty());
        assert(trim_end_len(s@) == 0);
        lemma_trim_end_len_le(s@);
    }
    let r = s.substring_char(0, 0);
    proof {
        assert(r@ =~= spec_trim_end(s@));
    }
    r
}

pub open spec fn dec_digit(d: int) -> char {
    if d == 0 {
        '0'
    } else if d == 1 {
        '1'
    } else if d == 2 {
        '2'
    } else if d == 3 {
        '3'
    } else if d == 4 {
        '4'
    } else if d == 5 {
        '5'
    } else if d == 6 {
        '6'
    } else if d == 7 {
        '7'
    } else if d == 8 {
        '8'
    } else {
        '9'
    }
}

/// The usual decimal rendering of a non-negative integer.
pub open spec fn dec_str(n: int) -> Seq<char>
    decreases n,
{
    if n < 10 {
        seq![dec_digit(n)]
    } else {
        dec_str(n / 10).push(dec_digit(n % 10))
    }
}

fn digit_str(d: usize) -> (r: &'static str)
    requires
        d < 10,
    ensures
        r@ == seq![dec_digit(d as int)],
{
    proof {
        reveal_strlit("0");
        reveal_strlit("1");
        reveal_strlit("2");
        reveal_strlit("3");
        reveal_strlit("4");
        reveal_strlit("5");
        reveal_strlit("6");
        reveal_strlit("7");
        reveal_strlit("8");
        reveal_strlit("9");
    }
    let r = match d {
        0 => "0",
        1 => "1",
        2 => "2",
        3 => "3",
        4 => "4",
        5 => "5",
        6 => "6",
        7 => "7",
        8 => "8",
        _ => "9",
    };
    proof {
        assert(r@ =~= seq![dec_digit(d as int)]);
    }
    r
}

fn push_dec(out: &mut String, n: usize)
    ensures
        final(out)@ == old(out)@ + dec_str(n as int),
    decreases n,
{
    if n < 10 {
        out.append(digit_str(n));
        proof {
            assert(final(out)@ =~= old(out)@ + dec_str(n as int));
        }
    } else {
        push_dec(out, n / 10);
        out.append(digit_str(n % 10));
        proof {
            assert(final(out)@ =~= old(out)@ + dec_str(n as int));
        }
    }
}

pub fn usize_to_string(n: usize) -> (r: String)
    ensures
        r@ == dec_str(n as int),
{
    let mut out = String::new();
    push_dec(&mut out, n);
    proof {
        assert(out@ =~= dec_str(n as int));
    }
    out
}

} // verus!

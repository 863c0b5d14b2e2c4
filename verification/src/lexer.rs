use crate::util::{
    all_letters, all_whitespace, dec_str, grapheme_count, is_alphabetic, is_whitespace, repeat_of,
    str_eq, string_length, usize_to_string,
};
use vstd::prelude::*;

verus! {

// ---------------------------------------------------------------------------
// Tokens and their mathematical model
// ---------------------------------------------------------------------------
/// The value of a lexical token. `Whitespace` carries no text: all whitespace
/// is one semantic value. The other variants carry the text of the segment
/// they were made from.
#[derive(Debug, Clone, PartialEq, Eq, Hash)]
pub enum TokenValue {
    Whitespace,
    Word(String),
    Punctuation(String),
    Unknown(String),
}

/// The model of a `TokenValue`: the same shape over sequences of characters.
#[verifier::ext_equal]
pub enum SpecTokenValue {
    Whitespace,
    Word(Seq<char>),
    Punctuation(Seq<char>),
    Unknown(Seq<char>),
}

impl View for TokenValue {
    type V = SpecTokenValue;

    open spec fn view(&self) -> SpecTokenValue {
        match self {
            TokenValue::Whitespace => SpecTokenValue::Whitespace,
            TokenValue::Word(s) => SpecTokenValue::Word(s@),
            TokenValue::Punctuation(s) => SpecTokenValue::Punctuation(s@),
            TokenValue::Unknown(s) => SpecTokenValue::Unknown(s@),
        }
    }
}

/// The display text of a token value: whitespace collapses to a single
/// space, every other value shows its own text.
pub open spec fn tv_text(v: SpecTokenValue) -> Seq<char> {
    match v {
        SpecTokenValue::Whitespace => " "@,
        SpecTokenValue::Word(s) => s,
        SpecTokenValue::Punctuation(s) => s,
        SpecTokenValue::Unknown(s) => s,
    }
}

impl TokenValue {
    /// The text this token value stands for.
    pub fn get(&self) -> (r: &str)
        ensures
            r@ == tv_text(self@),
    {
        match self {
            TokenValue::Whitespace => " ",
            TokenValue::Word(s) => s.as_str(),
            TokenValue::Punctuation(s) => s.as_str(),
            TokenValue::Unknown(s) => s.as_str(),
        }
    }
}

impl Default for TokenValue {
    /// The default token value: an unknown token with no text.
    fn default() -> (r: Self)
        ensures
            r@ == SpecTokenValue::Unknown(Seq::<char>::empty()),
    {
        TokenValue::Unknown(String::new())
    }
}

/// Equality of token values: same variant and same text, except that any two
/// whitespace values are equal.
pub(crate) fn tv_eq(a: &TokenValue, b: &TokenValue) -> (r: bool)
    ensures
        r == (a@ == b@),
{
    match (a, b) {
        (TokenValue::Whitespace, TokenValue::Whitespace) => true,
        (TokenValue::Word(x), TokenValue::Word(y)) => str_eq(x.as_str(), y.as_str()),
        (TokenValue::Punctuation(x), TokenValue::Punctuation(y)) => str_eq(
            x.as_str(),
            y.as_str(),
        ),
        (TokenValue::Unknown(x), TokenValue::Unknown(y)) => str_eq(x.as_str(), y.as_str()),
        _ => false,
    }
}

pub(crate) fn tv_clone(v: &TokenValue) -> (r: TokenValue)
    ensures
        r@ == v@,
{
    match v {
        TokenValue::Whitespace => TokenValue::Whitespace,
        TokenValue::Word(s) => TokenValue::Word(s.clone()),
        TokenValue::Punctuation(s) => TokenValue::Punctuation(s.clone()),
        TokenValue::Unknown(s) => TokenValue::Unknown(s.clone()),
    }
}

/// A lexical token: its value, the full text of the line it stands on, and
/// its 1-based line and column numbers, the column counted in grapheme
/// clusters.
#[derive(Debug, Clone, PartialEq, Eq, Hash)]
pub struct Token {
    pub value: TokenValue,
    pub line: String,
    pub line_number: usize,
    pub column_number: usize,
}

/// The model of a `Token`.
#[verifier::ext_equal]
pub struct SpecToken {
    pub value: SpecTokenValue,
    pub line: Seq<char>,
    pub line_number: int,
    pub column_number: int,
}

impl View for Token {
    type V = SpecToken;

    open spec fn view(&self) -> SpecToken {
        SpecToken {
            value: self.value@,
            line: self.line@,
            line_number: self.line_number as int,
            column_number: self.column_number as int,
        }
    }
}

impl Token {
    pub fn new(value: TokenValue, line: String, line_number: usize, column_number: usize) -> (t:
        Token)
        ensures
            t@ == (SpecToken {
                value: value@,
                line: line@,
                line_number: line_number as int,
                column_number: column_number as int,
            }),
    {
        Token { value, line, line_number, column_number }
    }
}

pub(crate) fn token_eq(a: &Token, b: &Token) -> (r: bool)
    ensures
        r == (a@ == b@),
{
    let r = tv_eq(&a.value, &b.value) && str_eq(a.line.as_str(), b.line.as_str())
        && a.line_number == b.line_number && a.column_number == b.column_number;
    proof {
        if r {
            assert(a@ == b@);
        }
    }
    r
}

pub(crate) fn token_clone(t: &Token) -> (r: Token)
    ensures
        r@ == t@,
{
    Token {
        value: tv_clone(&t.value),
        line: t.line.clone(),
        line_number: t.line_number,
        column_number: t.column_number,
    }
}

// ---------------------------------------------------------------------------
// Lexing errors and their display text
// ---------------------------------------------------------------------------
/// An unclassifiable token, wrapped as the lexing error.
#[derive(Debug, Clone, PartialEq, Eq, Hash)]
pub struct Error(Token);

impl View for Error {
    type V = SpecToken;

    closed spec fn view(&self) -> SpecToken {
        self.0@
    }
}

pub open spec fn spec_tv_kind(v: SpecTokenValue) -> Seq<char> {
    match v {
        SpecTokenValue::Whitespace => "whitespace"@,
        SpecTokenValue::Word(_) => "word"@,
        SpecTokenValue::Punctuation(_) => "punctuation"@,
        SpecTokenValue::Unknown(_) => "unknown"@,
    }
}

/// The display text of a token value: its kind and its text, or only the
/// kind for whitespace and for empty text.
pub open spec fn spec_tv_display(v: SpecTokenValue) -> Seq<char> {
    if v is Whitespace || tv_text(v).len() == 0 {
        "any "@ + spec_tv_kind(v) + " token"@
    } else {
        spec_tv_kind(v) + " token \""@ + tv_text(v) + "\""@
    }
}

impl TokenValue {
    fn kind_str(&self) -> (r: &'static str)
        ensures
            r@ == spec_tv_kind(self@),
    {
        match self {
            TokenValue::Whitespace => "whitespace",
            TokenValue::Word(_) => "word",
            TokenValue::Punctuation(_) => "punctuation",
            TokenValue::Unknown(_) => "unknown",
        }
    }

    /// The display text of this token value.
    pub fn render(&self) -> (r: String)
        ensures
            r@ == spec_tv_display(self@),
    {
        let text = self.get();
        let mut out = String::new();
        if text.is_empty() || matches!(self, TokenValue::Whitespace) {
            out.append("any ");
            out.append(self.kind_str());
            out.append(" token");
        } else {
            out.append(self.kind_str());
            out.append(" token \"");
            out.append(text);
            out.append("\"");
        }
        proof {
            assert(out@ =~= spec_tv_display(self@));
        }
        out
    }
}

/// The display text of a lexing error: the position and kind of the bad
/// token, the trimmed source line, and a caret pointer under the token.
pub open spec fn spec_lex_error_text(t: SpecToken) -> Seq<char> {
    "Error on line "@ + dec_str(t.line_number) + ", column "@ + dec_str(t.column_number) + ": "@
        + spec_tv_display(t.value) + "\n  "@ + crate::util::spec_trim_end(t.line) + "\n  "@
        + repeat_of(
        " "@,
        if t.column_number >= 1 {
            (t.column_number - 1) as nat
        } else {
            0
        },
    ) + repeat_of("^"@, grapheme_count(tv_text(t.value)))
}

impl Error {
    /// The token that could not be classified.
    pub fn token(&self) -> (t: &Token)
        ensures
            t@ == self@,
    {
        &self.0
    }

    /// The error's display text.
    pub fn render(&self) -> (r: String)
        ensures
            r@ == spec_lex_error_text(self@),
    {
        let token = &self.0;
        let mut out = String::new();
        out.append("Error on line ");
        let ln = usize_to_string(token.line_number);
        out.append(ln.as_str());
        out.append(", column ");
        let col = usize_to_string(token.column_number);
        out.append(col.as_str());
        out.append(": ");
        let v = token.value.render();
        out.append(v.as_str());
        out.append("\n  ");
        out.append(crate::util::trim_end_str(token.line.as_str()));
        out.append("\n  ");
        let pad_n = if token.column_number >= 1 {
            token.column_number - 1
        } else {
            0
        };
        let pad = crate::util::repeat_piece(" ", pad_n);
        out.append(pad.as_str());
        let caret_n = string_length(token.value.get());
        let caret = crate::util::repeat_piece("^", caret_n);
        out.append(caret.as_str());
        proof {
            assert(out@ =~= spec_lex_error_text(self@));
        }
        out
    }
}

// ---------------------------------------------------------------------------
// Classification of one segment
// ---------------------------------------------------------------------------
/// The four reserved punctuation characters.
pub open spec fn reserved_punct_char(c: char) -> bool {
    c == ',' || c == '.' || c == '!' || c == '?'
}

/// How one word-boundary segment is classified: all-whitespace segments are
/// whitespace, a single reserved punctuation character is punctuation, an
/// all-letter segment is a word, and anything else is unknown.
pub open spec fn classify(seg: Seq<char>) -> SpecTokenValue {
    if all_whitespace(seg) {
        SpecTokenValue::Whitespace
    } else if seg.len() == 1 && reserved_punct_char(seg[0]) {
        SpecTokenValue::Punctuation(seg)
    } else if all_letters(seg) {
        SpecTokenValue::Word(seg)
    } else {
        SpecTokenValue::Unknown(seg)
    }
}

fn is_punctuation(s: &str) -> (r: bool)
    ensures
        r == (s@.len() == 1 && reserved_punct_char(s@[0])),
{
    if s.unicode_len() != 1 {
        return false;
    }
    let c = s.get_char(0);
    c == ',' || c == '.' || c == '!' || c == '?'
}

fn get_token_value(s: &str) -> (v: TokenValue)
    ensures
        v@ == classify(s@),
{
    if is_whitespace(s) {
        TokenValue::Whitespace
    } else if is_punctuation(s) {
        TokenValue::Punctuation(s.to_owned())
    } else if is_alphabetic(s) {
        TokenValue::Word(s.to_owned())
    } else {
        TokenValue::Unknown(s.to_owned())
    }
}

// ---------------------------------------------------------------------------
// Splitting the source: lines, then word-boundary segments
// ---------------------------------------------------------------------------
/// The length of the first line of `s`, its terminating line feed included.
pub open spec fn first_line_len(s: Seq<char>) -> nat
    decreases s.len(),
{
    if s.len() == 0 {
        0
    } else if s[0] == '\n' {
        1
    } else {
        (1 + first_line_len(s.drop_first())) as nat
    }
}

pub proof fn lemma_first_line_len_bounds(s: Seq<char>)
    ensures
        s.len() > 0 ==> 1 <= first_line_len(s) <= s.len(),
        s.len() == 0 ==> first_line_len(s) == 0,
    decreases s.len(),
{
    if s.len() > 0 && s[0] != '\n' {
        lemma_first_line_len_bounds(s.drop_first());
    }
}

/// The physical lines of `s`: maximal pieces ending in a line feed, the line
/// feed kept with its line; the last piece may lack one. The empty source has
/// no lines.
pub open spec fn lines_of(s: Seq<char>) -> Seq<Seq<char>>
    decreases s.len(),
    via lines_of_decreases
{
    if s.len() == 0 {
        Seq::empty()
    } else {
        seq![s.take(first_line_len(s) as int)] + lines_of(s.skip(first_line_len(s) as int))
    }
}

#[via_fn]
proof fn lines_of_decreases(s: Seq<char>) {
    lemma_first_line_len_bounds(s);
}

/// The word-boundary segments of one line, as the UAX #29 segmentation of
/// the unicode_segmentation crate returns them.
pub uninterp spec fn word_bounds(s: Seq<char>) -> Seq<Seq<char>>;

/// Relies on bstr's `ByteSlice::lines_with_terminator` and `ByteSlice::to_str`:
/// the iterator yields the maximal pieces of the byte string that end in a
/// line feed, terminators kept, with a last terminator-less piece if one
/// remains, and concatenating the pieces gives back the input. The pieces of
/// a valid UTF-8 string split at line feeds are valid UTF-8, so `to_str`
/// cannot fail here.
#[verifier::external_body]
fn split_lines(s: &str) -> (lines: Vec<String>)
    ensures
        lines.deep_view() == lines_of(s@),
{
    bstr::ByteSlice::lines_with_terminator(s.as_bytes())
        .map(|l| bstr::ByteSlice::to_str(l).unwrap().to_owned())
        .collect()
}

/// Relies on unicode_segmentation's `UnicodeSegmentation::split_word_bounds`:
/// the UAX #29 word segmentation depends on the characters alone, the
/// concatenation of the returned substrings is the original string, and no
/// returned substring is empty.
#[verifier::external_body]
fn split_word_bounds(s: &str) -> (segs: Vec<String>)
    ensures
        segs.deep_view() == word_bounds(s@),
        segs.deep_view().flatten() == s@,
        forall|i: int| 0 <= i < segs@.len() ==> (#[trigger] segs@[i])@.len() > 0,
{
    unicode_segmentation::UnicodeSegmentation::split_word_bounds(s)
        .map(|w| w.to_owned())
        .collect()
}

// ---------------------------------------------------------------------------
// The token stream of a source text
// ---------------------------------------------------------------------------
pub open spec fn sum_lens(segs: Seq<Seq<char>>) -> nat
    decreases segs.len(),
{
    if segs.len() == 0 {
        0
    } else {
        (segs[0].len() + sum_lens(segs.drop_first())) as nat
    }
}

pub open spec fn sum_graphemes(segs: Seq<Seq<char>>) -> nat
    decreases segs.len(),
{
    if segs.len() == 0 {
        0
    } else {
        (grapheme_count(segs[0]) + sum_graphemes(segs.drop_first())) as nat
    }
}

proof fn lemma_flatten_len(segs: Seq<Seq<char>>)
    ensures
        segs.flatten().len() == sum_lens(segs),
    decreases segs.len(),
{
    if segs.len() > 0 {
        lemma_flatten_len(segs.drop_first());
    }
}

proof fn lemma_sum_lens_split(segs: Seq<Seq<char>>, k: int)
    requires
        0 <= k <= segs.len(),
    ensures
        sum_lens(segs) == sum_lens(segs.take(k)) + sum_lens(segs.skip(k)),
    decreases k,
{
    if k == 0 {
        assert(segs.take(0) =~= Seq::<Seq<char>>::empty());
        assert(segs.skip(0) =~= segs);
    } else {
        lemma_sum_lens_split(segs.drop_first(), k - 1);
        assert(segs.take(k).drop_first() =~= segs.drop_first().take(k - 1));
        assert(segs.skip(k) =~= segs.drop_first().skip(k - 1));
        assert(segs.take(k)[0] == segs[0]);
    }
}

proof fn lemma_sum_graphemes_split(segs: Seq<Seq<char>>, k: int)
    requires
        0 <= k <= segs.len(),
    ensures
        sum_graphemes(segs) == sum_graphemes(segs.take(k)) + sum_graphemes(segs.skip(k)),
    decreases k,
{
    if k == 0 {
        assert(segs.take(0) =~= Seq::<Seq<char>>::empty());
        assert(segs.skip(0) =~= segs);
    } else {
        lemma_sum_graphemes_split(segs.drop_first(), k - 1);
        assert(segs.take(k).drop_first() =~= segs.drop_first().take(k - 1));
        assert(segs.skip(k) =~= segs.drop_first().skip(k - 1));
        assert(segs.take(k)[0] == segs[0]);
    }
}

/// The tokens of the segments of one line, columns advancing by grapheme
/// count from `col`.
pub open spec fn lex_segments(segs: Seq<Seq<char>>, line: Seq<char>, line_no: int, col: int) -> Seq<
    SpecToken,
>
    decreases segs.len(),
{
    if segs.len() == 0 {
        Seq::empty()
    } else {
        seq![
            SpecToken {
                value: classify(segs[0]),
                line: line,
                line_number: line_no,
                column_number: col,
            },
        ] + lex_segments(segs.drop_first(), line, line_no, col + grapheme_count(segs[0]))
    }
}

/// The tokens of one line: its word-boundary segments classified, the first
/// at column 1.
pub open spec fn lex_line(line: Seq<char>, line_no: int) -> Seq<SpecToken> {
    lex_segments(word_bounds(line), line, line_no, 1)
}

/// The tokens of a sequence of lines, line numbers counting up from
/// `first_no`.
pub open spec fn lex_lines(lines: Seq<Seq<char>>, first_no: int) -> Seq<SpecToken>
    decreases lines.len(),
{
    if lines.len() == 0 {
        Seq::empty()
    } else {
        lex_line(lines[0], first_no) + lex_lines(lines.drop_first(), first_no + 1)
    }
}

/// The full token stream of a source text, unknown tokens included: the
/// lines' tokens in order, the first line numbered 1.
pub open spec fn spec_tokens(s: Seq<char>) -> Seq<SpecToken> {
    lex_lines(lines_of(s), 1)
}

pub open spec fn has_unknown(toks: Seq<SpecToken>) -> bool {
    exists|i: int| 0 <= i < toks.len() && (#[trigger] toks[i]).value is Unknown
}

/// The first token classified as unknown, on which lexing fails.
pub open spec fn first_unknown(toks: Seq<SpecToken>) -> SpecToken
    decreases toks.len(),
{
    if toks.len() == 0 {
        arbitrary()
    } else if toks[0].value is Unknown {
        toks[0]
    } else {
        first_unknown(toks.drop_first())
    }
}

pub open spec fn token_views(ts: Seq<Token>) -> Seq<SpecToken> {
    ts.map_values(|t: Token| t@)
}

pub open spec fn tv_views(vs: Seq<TokenValue>) -> Seq<SpecTokenValue> {
    vs.map_values(|v: TokenValue| v@)
}

pub proof fn lemma_token_views_subrange(ts: Seq<Token>, a: int, b: int)
    requires
        0 <= a <= b <= ts.len(),
    ensures
        token_views(ts.subrange(a, b)) == token_views(ts).subrange(a, b),
{
    assert(token_views(ts.subrange(a, b)) =~= token_views(ts).subrange(a, b));
}

proof fn lemma_lex_segments_split(segs: Seq<Seq<char>>, line: Seq<char>, ln: int, c0: int, k: int)
    requires
        0 <= k <= segs.len(),
    ensures
        lex_segments(segs, line, ln, c0) == lex_segments(segs.take(k), line, ln, c0)
            + lex_segments(segs.skip(k), line, ln, c0 + sum_graphemes(segs.take(k))),
    decreases k,
{
    if k == 0 {
        assert(segs.take(0) =~= Seq::<Seq<char>>::empty());
        assert(segs.skip(0) =~= segs);
        assert(lex_segments(segs.take(0), line, ln, c0) + lex_segments(segs, line, ln, c0)
            =~= lex_segments(segs, line, ln, c0));
    } else {
        lemma_lex_segments_split(segs.drop_first(), line, ln, c0 + grapheme_count(segs[0]), k - 1);
        assert(segs.take(k).drop_first() =~= segs.drop_first().take(k - 1));
        assert(segs.skip(k) =~= segs.drop_first().skip(k - 1));
        assert(segs.take(k)[0] == segs[0]);
        assert(lex_segments(segs, line, ln, c0) =~= lex_segments(segs.take(k), line, ln, c0)
            + lex_segments(segs.skip(k), line, ln, c0 + sum_graphemes(segs.take(k))));
    }
}

proof fn lemma_lex_lines_split(lines: Seq<Seq<char>>, first_no: int, k: int)
    requires
        0 <= k <= lines.len(),
    ensures
        lex_lines(lines, first_no) == lex_lines(lines.take(k), first_no) + lex_lines(
            lines.skip(k),
            first_no + k,
        ),
    decreases k,
{
    if k == 0 {
        assert(lines.take(0) =~= Seq::<Seq<char>>::empty());
        assert(lines.skip(0) =~= lines);
        assert(lex_lines(lines.take(0), first_no) + lex_lines(lines, first_no) =~= lex_lines(
            lines,
            first_no,
        ));
    } else {
        lemma_lex_lines_split(lines.drop_first(), first_no + 1, k - 1);
        assert(lines.take(k).drop_first() =~= lines.drop_first().take(k - 1));
        assert(lines.skip(k) =~= lines.drop_first().skip(k - 1));
        assert(lines.take(k)[0] == lines[0]);
        assert(lex_lines(lines, first_no) =~= lex_lines(lines.take(k), first_no) + lex_lines(
            lines.skip(k),
            first_no + k,
        ));
    }
}

proof fn lemma_first_unknown_at(toks: Seq<SpecToken>, m: int)
    requires
        0 <= m < toks.len(),
        toks[m].value is Unknown,
        forall|k: int| 0 <= k < m ==> !((#[trigger] toks[k]).value is Unknown),
    ensures
        has_unknown(toks),
        first_unknown(toks) == toks[m],
    decreases m,
{
    if m == 0 {
    } else {
        lemma_first_unknown_at(toks.drop_first(), m - 1);
        assert(toks.drop_first()[m - 1] == toks[m]);
        assert(forall|k: int|
            0 <= k < m - 1 ==> !((#[trigger] toks.drop_first()[k]).value is Unknown));
    }
}

fn get_token(s: &str, line_number: usize, column_number: usize, line: &str) -> (r: Result<
    Token,
    Error,
>)
    ensures
        ({
            let t = SpecToken {
                value: classify(s@),
                line: line@,
                line_number: line_number as int,
                column_number: column_number as int,
            };
            match r {
                Result::Ok(tok) => tok@ == t && !(classify(s@) is Unknown),
                Result::Err(e) => e@ == t && classify(s@) is Unknown,
            }
        }),
{
    let value = get_token_value(s);
    let token = Token { value, line: line.to_owned(), line_number, column_number };
    let unknown = matches!(&token.value, TokenValue::Unknown(_));
    if unknown {
        Err(Error(token))
    } else {
        Ok(token)
    }
}

/// Splits a source text into its classified tokens, or fails on the first
/// segment that is neither whitespace, reserved punctuation nor letters.
pub fn lex(s: &str) -> (r: Result<Vec<Token>, Error>)
    ensures
        ({
            let toks = spec_tokens(s@);
            match r {
                Result::Ok(tokens) => !has_unknown(toks) && token_views(tokens@) == toks,
                Result::Err(e) => has_unknown(toks) && e@ == first_unknown(toks),
            }
        }),
{
    let lines = split_lines(s);
    let mut tokens: Vec<Token> = Vec::new();
    let mut ln: usize = 0;
    proof {
        assert(lines_of(s@).take(0) =~= Seq::<Seq<char>>::empty());
        assert(token_views(tokens@) =~= Seq::<SpecToken>::empty());
    }
    while ln < lines.len()
        invariant
            lines.deep_view() == lines_of(s@),
            lines@.len() == lines_of(s@).len(),
            0 <= ln <= lines@.len(),
            token_views(tokens@) == lex_lines(lines_of(s@).take(ln as int), 1),
            !has_unknown(token_views(tokens@)),
        decreases lines@.len() - ln,
    {
        let ghost all_lines = lines_of(s@);
        let line: &String = &lines[ln];
        proof {
            assert(line@ == all_lines[ln as int]);
        }
        let segs = split_word_bounds(line.as_str());
        let line_chars = line.as_str().unicode_len();
        let ghost wb = word_bounds(line@);
        proof {
            lemma_flatten_len(wb);
            assert(wb.take(0) =~= Seq::<Seq<char>>::empty());
        }
        let line_no = ln + 1;
        let mut col: usize = 1;
        let mut j: usize = 0;
        while j < segs.len()
            invariant
                lines.deep_view() == lines_of(s@),
                lines@.len() == lines_of(s@).len(),
                0 <= ln < lines@.len(),
                all_lines == lines_of(s@),
                line@ == all_lines[ln as int],
                line == lines@[ln as int],
                wb == word_bounds(line@),
                segs.deep_view() == wb,
                segs@.len() == wb.len(),
                wb.flatten() == line@,
                sum_lens(wb) == line@.len(),
                line_chars == line@.len(),
                forall|i: int| 0 <= i < segs@.len() ==> (#[trigger] segs@[i])@.len() > 0,
                line_no == ln + 1,
                0 <= j <= segs@.len(),
                j < segs@.len() ==> col as int == 1 + sum_graphemes(wb.take(j as int)),
                j < segs@.len() ==> col as int - 1 <= sum_lens(wb.take(j as int)),
                token_views(tokens@) == lex_lines(all_lines.take(ln as int), 1) + lex_segments(
                    wb.take(j as int),
                    line@,
                    ln as int + 1,
                    1,
                ),
                !has_unknown(token_views(tokens@)),
            decreases segs@.len() - j,
        {
            let seg: &String = &segs[j];
            proof {
                assert(seg@ == wb[j as int]);
            }
            let ghost tok_spec = SpecToken {
                value: classify(seg@),
                line: line@,
                line_number: ln as int + 1,
                column_number: col as int,
            };
            proof {
                // the spec stream after the tokens already made starts with
                // this very token
                lemma_lex_segments_split(wb, line@, ln as int + 1, 1, j as int);
                assert(wb.skip(j as int)[0] == wb[j as int]);
                assert(lex_segments(wb.skip(j as int), line@, ln as int + 1, col as int)[0]
                    == tok_spec);
            }
            match get_token(seg.as_str(), line_no, col, line.as_str()) {
                Result::Ok(t) => {
                    tokens.push(t);
                    proof {
                        assert(token_views(tokens@) =~= lex_lines(all_lines.take(ln as int), 1)
                            + lex_segments(wb.take(j as int), line@, ln as int + 1, 1) + seq![
                            tok_spec,
                        ]);
                        lemma_lex_segments_split(wb.take(j + 1), line@, ln as int + 1, 1, j as int);
                        assert(wb.take(j + 1).take(j as int) =~= wb.take(j as int));
                        assert(wb.take(j + 1).skip(j as int) =~= seq![wb[j as int]]);
                        reveal_with_fuel(lex_segments, 2);
                        assert(seq![wb[j as int]].drop_first() =~= Seq::<Seq<char>>::empty());
                        assert(lex_segments(seq![wb[j as int]], line@, ln as int + 1, col as int)
                            =~= seq![tok_spec]);
                        assert(token_views(tokens@) =~= lex_lines(all_lines.take(ln as int), 1)
                            + lex_segments(wb.take(j + 1), line@, ln as int + 1, 1));
                        assert(!has_unknown(token_views(tokens@)));
                    }
                    if j + 1 < segs.len() {
                        let g = string_length(seg.as_str());
                        proof {
                            lemma_sum_graphemes_split(wb.take(j + 1), j as int);
                            lemma_sum_lens_split(wb.take(j + 1), j as int);
                            reveal_with_fuel(sum_graphemes, 2);
                            reveal_with_fuel(sum_lens, 2);
                            assert(wb.take(j + 1).take(j as int) =~= wb.take(j as int));
                            assert(wb.take(j + 1).skip(j as int) =~= seq![wb[j as int]]);
                            assert(seq![wb[j as int]].drop_first() =~= Seq::<Seq<char>>::empty());
                            assert(sum_graphemes(seq![wb[j as int]]) == grapheme_count(
                                wb[j as int],
                            ));
                            assert(sum_lens(seq![wb[j as int]]) == wb[j as int].len());
                            // everything consumed so far, this segment
                            // included, is a strict prefix of the line, so the
                            // next column still fits in usize
                            lemma_sum_lens_split(wb, j + 1);
                            assert(sum_lens(wb.skip(j + 1)) >= wb.skip(j + 1)[0].len());
                            assert(wb.skip(j + 1)[0] == wb[j + 1]);
                            assert(sum_lens(wb.take(j + 1)) + 1 <= line@.len());
                        }
                        col = col + g;
                    }
                    j = j + 1;
                }
                Result::Err(e) => {
                    proof {
                        let toks = spec_tokens(s@);
                        let m = tokens@.len() as int;
                        lemma_lex_lines_split(all_lines, 1, ln as int);
                        assert(all_lines.skip(ln as int)[0] == line@);
                        assert(lex_lines(all_lines.skip(ln as int), 1 + ln as int) == lex_line(
                            line@,
                            ln as int + 1,
                        ) + lex_lines(all_lines.skip(ln as int).drop_first(), ln as int + 2));
                        assert(toks =~= token_views(tokens@) + lex_segments(
                            wb.skip(j as int),
                            line@,
                            ln as int + 1,
                            col as int,
                        ) + lex_lines(all_lines.skip(ln as int).drop_first(), ln as int + 2));
                        assert(toks[m] == tok_spec);
                        assert(forall|k: int|
                            0 <= k < m ==> toks[k] == #[trigger] token_views(tokens@)[k]);
                        lemma_first_unknown_at(toks, m);
                    }
                    return Result::Err(e);
                },
            }
        }
        proof {
            assert(wb.take(segs@.len() as int) =~= wb);
            lemma_lex_lines_split(all_lines.take(ln as int + 1), 1, ln as int);
            assert(all_lines.take(ln as int + 1).take(ln as int) =~= all_lines.take(ln as int));
            assert(all_lines.take(ln as int + 1).skip(ln as int) =~= seq![line@]);
            reveal_with_fuel(lex_lines, 2);
            assert(seq![line@].drop_first() =~= Seq::<Seq<char>>::empty());
            assert(lex_lines(seq![line@], 1 + ln as int) =~= lex_line(line@, ln as int + 1));
            assert(token_views(tokens@) =~= lex_lines(all_lines.take(ln as int + 1), 1));
        }
        ln = ln + 1;
    }
    proof {
        assert(lines_of(s@).take(lines@.len() as int) =~= lines_of(s@));
    }
    Result::Ok(tokens)
}

/// The classification of the last word-boundary segment of `s`: nothing
/// exactly on the empty string, else the last segment classified as the
/// lexer would.
pub fn last_token_value(s: &str) -> (r: Option<TokenValue>)
    ensures
        (r is None) <==> (s@.len() == 0),
        match r {
            Option::None => word_bounds(s@).len() == 0,
            Option::Some(v) => word_bounds(s@).len() > 0 && v@ == classify(
                word_bounds(s@).last(),
            ),
        },
{
    let segs = split_word_bounds(s);
    proof {
        // the segments concatenate to the input and each is non-empty, so
        // there are none exactly when the input is empty
        lemma_flatten_len(word_bounds(s@));
        if word_bounds(s@).len() > 0 {
            assert(sum_lens(word_bounds(s@)) >= word_bounds(s@)[0].len());
            assert(word_bounds(s@)[0].len() == segs@[0]@.len());
        }
    }
    if segs.len() == 0 {
        None
    } else {
        let v = get_token_value(segs[segs.len() - 1].as_str());
        Some(v)
    }
}

} // verus!

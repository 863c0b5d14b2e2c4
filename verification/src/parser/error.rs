use super::model::{spec_reserved, spec_terminators};
use crate::lexer::{
    spec_tv_display, tv_text, tv_views, SpecToken, SpecTokenValue, Token, TokenValue,
};
use crate::util::{
    dec_str, grapheme_count, repeat_of, repeat_piece, spec_fmt_list, spec_trim_end, string_length,
    trim_end_str, usize_to_string,
};
use vstd::prelude::*;

verus! {

/// The model of a parsing error: the operation's keyword text, the keyword
/// token the statement hangs on, the token that broke the parse (if one
/// did), the token values that would have been accepted there, and a
/// free-text explanation.
#[verifier::ext_equal]
pub struct SpecError {
    pub operation_kind: Seq<char>,
    pub operation_token: SpecToken,
    pub unexpected_token: Option<SpecToken>,
    pub expected_tokens: Option<Seq<SpecTokenValue>>,
    pub details: Option<Seq<char>>,
}

pub open spec fn opt_token_view(o: Option<Token>) -> Option<SpecToken> {
    match o {
        Option::Some(t) => Option::Some(t@),
        Option::None => Option::None,
    }
}

/// A parsing error; read-only once built, used only for rendering.
#[derive(Debug, Clone, PartialEq, Eq, Hash)]
pub struct Error {
    operation_kind: String,
    operation_token: Token,
    unexpected_token: Option<Token>,
    expected_tokens: Option<Vec<TokenValue>>,
    details: Option<String>,
}

impl View for Error {
    type V = SpecError;

    closed spec fn view(&self) -> SpecError {
        SpecError {
            operation_kind: self.operation_kind@,
            operation_token: self.operation_token@,
            unexpected_token: opt_token_view(self.unexpected_token),
            expected_tokens: match self.expected_tokens {
                Option::Some(v) => Option::Some(tv_views(v@)),
                Option::None => Option::None,
            },
            details: match self.details {
                Option::Some(d) => Option::Some(d@),
                Option::None => Option::None,
            },
        }
    }
}

impl Error {
    pub fn new(
        operation_kind: &str,
        operation_token: Token,
        unexpected_token: Option<Token>,
        expected_tokens: Option<Vec<TokenValue>>,
        details: Option<String>,
    ) -> (e: Error)
        ensures
            e@ == (SpecError {
                operation_kind: operation_kind@,
                operation_token: operation_token@,
                unexpected_token: opt_token_view(unexpected_token),
                expected_tokens: match expected_tokens {
                    Option::Some(v) => Option::Some(tv_views(v@)),
                    Option::None => Option::None,
                },
                details: match details {
                    Option::Some(d) => Option::Some(d@),
                    Option::None => Option::None,
                },
            }),
    {
        Error {
            operation_kind: operation_kind.to_owned(),
            operation_token,
            unexpected_token,
            expected_tokens,
            details,
        }
    }
}

// ---------------------------------------------------------------------------
// Display text
// ---------------------------------------------------------------------------
/// The caret note for the unexpected token: under the same source line it is
/// a second caret run aligned right of the keyword's carets; a token that
/// stands on another line (or too far left for that alignment) reproduces
/// its own line instead.
pub open spec fn spec_fmt_unexpected(e: SpecError) -> Seq<char> {
    match e.unexpected_token {
        Option::None => Seq::empty(),
        Option::Some(un) => {
            if un == e.operation_token {
                Seq::empty()
            } else if un.line == e.operation_token.line && un.column_number
                >= e.operation_token.column_number + grapheme_count(
                tv_text(e.operation_token.value),
            ) {
                repeat_of(
                    " "@,
                    (un.column_number - e.operation_token.column_number - grapheme_count(
                        tv_text(e.operation_token.value),
                    )) as nat,
                ) + repeat_of("^"@, grapheme_count(tv_text(un.value))) + "\n"@ + "Unexpected "@
                    + spec_tv_display(un.value)
            } else {
                "\n"@ + "Unexpected "@ + spec_tv_display(un.value) + " on line "@ + dec_str(
                    un.line_number,
                ) + ", column "@ + dec_str(un.column_number) + ":\n  "@ + spec_trim_end(un.line)
                    + "\n  "@ + repeat_of(
                    " "@,
                    if un.column_number >= 1 {
                        (un.column_number - 1) as nat
                    } else {
                        0
                    },
                ) + repeat_of("^"@, grapheme_count(tv_text(un.value)))
            }
        },
    }
}

/// The "Expected ..." note, when an expected-token list is present.
pub open spec fn spec_fmt_expected(e: SpecError) -> Seq<char> {
    match e.expected_tokens {
        Option::None => Seq::empty(),
        Option::Some(list) => {
            let txt = spec_fmt_list(
                list.map_values(|v: SpecTokenValue| spec_tv_display(v)),
                ", "@,
                "or"@,
            );
            if txt.len() == 0 {
                Seq::empty()
            } else {
                "\nExpected "@ + txt + (if e.unexpected_token is Some {
                    " instead"@
                } else {
                    Seq::<char>::empty()
                })
            }
        },
    }
}

/// The full display text of a parsing error: the header names the position
/// of the unexpected token when it shares the keyword's line, else the
/// keyword's own; the keyword's line is reproduced with carets under the
/// keyword, followed by the unexpected-token note, the expected list and the
/// explanation.
pub open spec fn spec_parse_error_text(e: SpecError) -> Seq<char> {
    let op = e.operation_token;
    let pos = match e.unexpected_token {
        Option::Some(un) => if un.line_number == op.line_number {
            un
        } else {
            op
        },
        Option::None => op,
    };
    "Error on "@ + e.operation_kind + " operation on line "@ + dec_str(pos.line_number)
        + ", column "@ + dec_str(pos.column_number) + ":\n  "@ + spec_trim_end(op.line) + "\n  "@
        + repeat_of(
        " "@,
        if op.column_number >= 1 {
            (op.column_number - 1) as nat
        } else {
            0
        },
    ) + repeat_of("^"@, grapheme_count(tv_text(op.value))) + spec_fmt_unexpected(e)
        + spec_fmt_expected(e) + (match e.details {
        Option::Some(d) => "\n"@ + d,
        Option::None => Seq::<char>::empty(),
    })
}

fn fmt_unexpected(e: &Error) -> (r: String)
    ensures
        r@ == spec_fmt_unexpected(e@),
{
    let mut out = String::new();
    match &e.unexpected_token {
        Option::None => {},
        Option::Some(un) => {
            if crate::lexer::token_eq(un, &e.operation_token) {
            } else {
                let op_len = string_length(e.operation_token.value.get());
                if crate::util::str_eq(un.line.as_str(), e.operation_token.line.as_str())
                    && un.column_number >= e.operation_token.column_number
                    && un.column_number - e.operation_token.column_number >= op_len {
                    let pad = repeat_piece(
                        " ",
                        un.column_number - e.operation_token.column_number - op_len,
                    );
                    out.append(pad.as_str());
                    let carets = repeat_piece("^", string_length(un.value.get()));
                    out.append(carets.as_str());
                    out.append("\n");
                    out.append("Unexpected ");
                    let v = un.value.render();
                    out.append(v.as_str());
                } else {
                    out.append("\n");
                    out.append("Unexpected ");
                    let v = un.value.render();
                    out.append(v.as_str());
                    out.append(" on line ");
                    let lns = usize_to_string(un.line_number);
                    out.append(lns.as_str());
                    out.append(", column ");
                    let cols = usize_to_string(un.column_number);
                    out.append(cols.as_str());
                    out.append(":\n  ");
                    out.append(trim_end_str(un.line.as_str()));
                    out.append("\n  ");
                    let pad_n = if un.column_number >= 1 {
                        un.column_number - 1
                    } else {
                        0
                    };
                    let pad = repeat_piece(" ", pad_n);
                    out.append(pad.as_str());
                    let carets = repeat_piece("^", string_length(un.value.get()));
                    out.append(carets.as_str());
                }
            }
        },
    }
    proof {
        assert(out@ =~= spec_fmt_unexpected(e@));
    }
    out
}

fn fmt_expected(e: &Error) -> (r: String)
    ensures
        r@ == spec_fmt_expected(e@),
{
    let mut out = String::new();
    match &e.expected_tokens {
        Option::None => {},
        Option::Some(list) => {
            let mut shown: Vec<String> = Vec::new();
            let mut i: usize = 0;
            while i < list.len()
                invariant
                    0 <= i <= list@.len(),
                    shown@.len() == i,
                    forall|j: int|
                        0 <= j < i ==> (#[trigger] shown@[j])@ == spec_tv_display(list@[j]@),
                decreases list@.len() - i,
            {
                shown.push(list[i].render());
                i = i + 1;
            }
            proof {
                assert(shown.deep_view() =~= tv_views(list@).map_values(
                    |v: SpecTokenValue| spec_tv_display(v),
                ));
            }
            let txt = crate::util::fmt_list(&shown, ", ", "or");
            if !txt.as_str().is_empty() {
                out.append("\nExpected ");
                out.append(txt.as_str());
                if e.unexpected_token.is_some() {
                    out.append(" instead");
                }
            }
        },
    }
    proof {
        assert(out@ =~= spec_fmt_expected(e@));
    }
    out
}

impl Error {
    /// The error's display text.
    pub fn render(&self) -> (r: String)
        ensures
            r@ == spec_parse_error_text(self@),
    {
        let op = &self.operation_token;
        let mut pos_line: usize = op.line_number;
        let mut pos_col: usize = op.column_number;
        match &self.unexpected_token {
            Option::Some(un) => {
                if un.line_number == op.line_number {
                    pos_line = un.line_number;
                    pos_col = un.column_number;
                }
            },
            Option::None => {},
        }
        let mut out = String::new();
        out.append("Error on ");
        out.append(self.operation_kind.as_str());
        out.append(" operation on line ");
        let lns = usize_to_string(pos_line);
        out.append(lns.as_str());
        out.append(", column ");
        let cols = usize_to_string(pos_col);
        out.append(cols.as_str());
        out.append(":\n  ");
        out.append(trim_end_str(op.line.as_str()));
        out.append("\n  ");
        let pad_n = if op.column_number >= 1 {
            op.column_number - 1
        } else {
            0
        };
        let pad = repeat_piece(" ", pad_n);
        out.append(pad.as_str());
        let carets = repeat_piece("^", string_length(op.value.get()));
        out.append(carets.as_str());
        let un_part = fmt_unexpected(self);
        out.append(un_part.as_str());
        let ex_part = fmt_expected(self);
        out.append(ex_part.as_str());
        match &self.details {
            Option::Some(d) => {
                out.append("\n");
                out.append(d.as_str());
            },
            Option::None => {},
        }
        proof {
            assert(out@ =~= spec_parse_error_text(self@));
        }
        out
    }
}

// ---------------------------------------------------------------------------
// The errors the list parser hands out
// ---------------------------------------------------------------------------
/// The token values acceptable inside a list: whitespace and any word.
pub open spec fn spec_expected_list_tokens() -> Seq<SpecTokenValue> {
    seq![SpecTokenValue::Whitespace, SpecTokenValue::Word(""@)]
}

pub open spec fn spec_invalid_list_details(name: Seq<char>) -> Seq<char> {
    "The "@ + name + " list you entered is invalid!"@
}

/// The parse error built from a failed list parse: a malformed list names
/// the reserved word it misused or calls the list invalid; an empty list
/// asks for at least one element, naming what the offending token was
/// serving as.
pub open spec fn spec_list_error(
    kind: Seq<char>,
    op_token: SpecToken,
    terms: Seq<SpecTokenValue>,
    name: Seq<char>,
    unexpected: Option<SpecToken>,
    has_elems: bool,
) -> SpecError {
    if has_elems {
        SpecError {
            operation_kind: kind,
            operation_token: op_token,
            unexpected_token: unexpected,
            expected_tokens: Option::Some(spec_expected_list_tokens() + terms),
            details: Option::Some(
                match unexpected {
                    Option::Some(t) => if spec_reserved().contains(t.value) {
                        "Can't use "@ + spec_tv_display(t.value) + " in lists, it's reserved!"@
                    } else {
                        spec_invalid_list_details(name)
                    },
                    Option::None => spec_invalid_list_details(name),
                },
            ),
        }
    } else {
        SpecError {
            operation_kind: kind,
            operation_token: op_token,
            unexpected_token: unexpected,
            expected_tokens: Option::Some(spec_expected_list_tokens()),
            details: Option::Some(
                "You must specify at least one "@ + name + (match unexpected {
                    Option::Some(t) => " before "@ + (if terms.contains(t.value) {
                        "list terminator"@
                    } else if spec_terminators().contains(t.value) {
                        "operation terminator"@
                    } else {
                        "list element separator"@
                    }) + " "@ + spec_tv_display(t.value),
                    Option::None => Seq::<char>::empty(),
                }),
            ),
        }
    }
}

} // verus!

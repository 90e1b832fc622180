//! The mathematical model of the scanner: spec functions over the source
//! text, viewed as a sequence of codepoints, that say exactly which tokens
//! and which diagnostics a scan of that text yields.
//!
//! The executable scanner is proved to return `spec_scan` of its input.
//! Positions are codepoint indices into the text; lines are 1-based and a
//! newline increments the counter as it is consumed, so every codepoint of
//! a line, including its terminating newline, is counted on that line.

use crate::scanner::LexError;
use crate::token::{spec_plain_token, SpecToken, SpecTokenValue, TokenType};
use vstd::prelude::*;

verus! {

/// The codepoints with the Unicode `White_Space` property.  This is the
/// whitespace notion the scanner discards between tokens.
pub open spec fn is_space_char(c: char) -> bool {
    let u = c as u32;
    (0x09 <= u && u <= 0x0d) || u == 0x20 || u == 0x85 || u == 0xa0 || u == 0x1680 || (0x2000
        <= u && u <= 0x200a) || u == 0x2028 || u == 0x2029 || u == 0x202f || u == 0x205f || u
        == 0x3000
}

/// Decimal digits.
pub open spec fn is_digit_char(c: char) -> bool {
    '0' <= c && c <= '9'
}

/// ASCII letters, the codepoints that may begin an identifier.
pub open spec fn is_alpha_char(c: char) -> bool {
    ('a' <= c && c <= 'z') || ('A' <= c && c <= 'Z')
}

/// ASCII letters and digits, the codepoints that may continue an
/// identifier.
pub open spec fn is_alnum_char(c: char) -> bool {
    is_alpha_char(c) || is_digit_char(c)
}

/// The line counter after consuming codepoint `c` on line `line`: a newline
/// moves to the next line.  The counter saturates rather than wrap on
/// (unreachable in practice) inputs of more than `u32::MAX` lines.
pub open spec fn bump_line(line: u32, c: char) -> u32 {
    if c == '\n' {
        if line < u32::MAX {
            (line + 1) as u32
        } else {
            line
        }
    } else {
        line
    }
}

/// Position and line after discarding the maximal run of whitespace
/// codepoints starting at `i`.
pub open spec fn skip_spaces(s: Seq<char>, i: int, line: u32) -> (int, u32)
    decreases s.len() - i,
{
    if 0 <= i < s.len() && is_space_char(s[i]) {
        skip_spaces(s, i + 1, bump_line(line, s[i]))
    } else {
        (i, line)
    }
}

/// Position and line after discarding the rest of the current line,
/// including its terminating newline if the text has one.
pub open spec fn skip_to_line_end(s: Seq<char>, i: int, line: u32) -> (int, u32)
    decreases s.len() - i,
{
    if 0 <= i < s.len() {
        if s[i] == '\n' {
            (i + 1, bump_line(line, '\n'))
        } else {
            skip_to_line_end(s, i + 1, line)
        }
    } else {
        (i, line)
    }
}

/// The end of the maximal run of decimal digits starting at `i`.
pub open spec fn digits_end(s: Seq<char>, i: int) -> int
    decreases s.len() - i,
{
    if 0 <= i < s.len() && is_digit_char(s[i]) {
        digits_end(s, i + 1)
    } else {
        i
    }
}

/// The end of the maximal run of identifier codepoints starting at `i`.
pub open spec fn ident_end(s: Seq<char>, i: int) -> int
    decreases s.len() - i,
{
    if 0 <= i < s.len() && is_alnum_char(s[i]) {
        ident_end(s, i + 1)
    } else {
        i
    }
}

/// The end of a number literal whose first digit stands at `j`: the maximal
/// run of digits, then optionally one `.` and another maximal run of
/// digits.  A second `.` is never part of the literal.
pub open spec fn number_end(s: Seq<char>, j: int) -> int {
    let e = digits_end(s, j + 1);
    if e < s.len() && s[e] == '.' {
        digits_end(s, e + 1)
    } else {
        e
    }
}

/// The index of the closing quote of a string literal whose content starts
/// at `i`, or `None` when the input ends first.
pub open spec fn string_close(s: Seq<char>, i: int) -> Option<int>
    decreases s.len() - i,
{
    if 0 <= i < s.len() {
        if s[i] == '"' {
            Some(i)
        } else {
            string_close(s, i + 1)
        }
    } else {
        None
    }
}

/// The line counter after consuming the codepoints of `s[i..j]` starting on
/// line `line`.
pub open spec fn advance_lines(s: Seq<char>, i: int, j: int, line: u32) -> u32
    decreases j - i,
{
    if i < j && 0 <= i < s.len() {
        advance_lines(s, i + 1, j, bump_line(line, s[i]))
    } else {
        line
    }
}

/// Consuming one more codepoint advances the line counter by that
/// codepoint's contribution.
pub proof fn lemma_advance_lines_snoc(s: Seq<char>, i: int, j: int, line: u32)
    requires
        0 <= i <= j < s.len(),
    ensures
        advance_lines(s, i, j + 1, line) == bump_line(advance_lines(s, i, j, line), s[j]),
    decreases j - i,
{
    if i < j {
        lemma_advance_lines_snoc(s, i + 1, j, bump_line(line, s[i]));
    } else {
        reveal_with_fuel(advance_lines, 2);
    }
}

/// The token kind reserved for spelling `w`, or `None` when `w` is an
/// ordinary identifier.
pub open spec fn keyword_token(w: Seq<char>) -> Option<TokenType> {
    if w == "and"@ {
        Some(TokenType::And)
    } else if w == "class"@ {
        Some(TokenType::Class)
    } else if w == "else"@ {
        Some(TokenType::Else)
    } else if w == "false"@ {
        Some(TokenType::False)
    } else if w == "fun"@ {
        Some(TokenType::Fun)
    } else if w == "for"@ {
        Some(TokenType::For)
    } else if w == "if"@ {
        Some(TokenType::If)
    } else if w == "nil"@ {
        Some(TokenType::Nil)
    } else if w == "or"@ {
        Some(TokenType::Or)
    } else if w == "print"@ {
        Some(TokenType::Print)
    } else if w == "return"@ {
        Some(TokenType::Return)
    } else if w == "super"@ {
        Some(TokenType::Super)
    } else if w == "this"@ {
        Some(TokenType::This)
    } else if w == "true"@ {
        Some(TokenType::True)
    } else if w == "var"@ {
        Some(TokenType::Var)
    } else if w == "while"@ {
        Some(TokenType::While)
    } else {
        None
    }
}

/// The token produced for an identifier spelling: the reserved kind without
/// a payload on a keyword-table hit, otherwise an Identifier carrying the
/// spelling.
pub open spec fn spec_word_token(w: Seq<char>, line: u32) -> SpecToken {
    match keyword_token(w) {
        Some(kind) => spec_plain_token(kind, line),
        None => SpecToken {
            token_type: TokenType::Identifier,
            value: Some(SpecTokenValue::Str(w)),
            line,
        },
    }
}

/// What one dispatch cycle of the scanner does at position `i` on line
/// `line`: emit a token, skip a comment, report a diagnostic, or find the
/// input exhausted.  Each outcome carries the position and line reached.
pub ghost enum Step {
    Emit { token: SpecToken, pos: int, line: u32 },
    Skip { pos: int, line: u32 },
    Report { error: LexError, pos: int, line: u32 },
    Done { line: u32 },
}

/// One dispatch cycle: discard whitespace, classify the next codepoint, and
/// accumulate a literal where one begins.
pub open spec fn step_at(s: Seq<char>, i: int, line: u32) -> Step {
    let (j, l) = skip_spaces(s, i, line);
    if j >= s.len() {
        Step::Done { line: l }
    } else {
        let c = s[j];
        let k = j + 1;
        if c == '(' {
            Step::Emit { token: spec_plain_token(TokenType::LeftParen, l), pos: k, line: l }
        } else if c == ')' {
            Step::Emit { token: spec_plain_token(TokenType::RightParen, l), pos: k, line: l }
        } else if c == '{' {
            Step::Emit { token: spec_plain_token(TokenType::LeftBrace, l), pos: k, line: l }
        } else if c == '}' {
            Step::Emit { token: spec_plain_token(TokenType::RightBrace, l), pos: k, line: l }
        } else if c == ',' {
            Step::Emit { token: spec_plain_token(TokenType::Comma, l), pos: k, line: l }
        } else if c == '.' {
            Step::Emit { token: spec_plain_token(TokenType::Dot, l), pos: k, line: l }
        } else if c == '-' {
            Step::Emit { token: spec_plain_token(TokenType::Minus, l), pos: k, line: l }
        } else if c == '+' {
            Step::Emit { token: spec_plain_token(TokenType::Plus, l), pos: k, line: l }
        } else if c == ';' {
            Step::Emit { token: spec_plain_token(TokenType::Semicolon, l), pos: k, line: l }
        } else if c == '*' {
            Step::Emit { token: spec_plain_token(TokenType::Star, l), pos: k, line: l }
        } else if c == '!' {
            if k < s.len() && s[k] == '=' {
                Step::Emit { token: spec_plain_token(TokenType::BangEqual, l), pos: k + 1, line: l }
            } else {
                Step::Emit { token: spec_plain_token(TokenType::Bang, l), pos: k, line: l }
            }
        } else if c == '=' {
            if k < s.len() && s[k] == '=' {
                Step::Emit {
                    token: spec_plain_token(TokenType::EqualEqual, l),
                    pos: k + 1,
                    line: l,
                }
            } else {
                Step::Emit { token: spec_plain_token(TokenType::Equal, l), pos: k, line: l }
            }
        } else if c == '>' {
            if k < s.len() && s[k] == '=' {
                Step::Emit {
                    token: spec_plain_token(TokenType::GreaterEqual, l),
                    pos: k + 1,
                    line: l,
                }
            } else {
                Step::Emit { token: spec_plain_token(TokenType::Greater, l), pos: k, line: l }
            }
        } else if c == '<' {
            if k < s.len() && s[k] == '=' {
                Step::Emit { token: spec_plain_token(TokenType::LessEqual, l), pos: k + 1, line: l }
            } else {
                Step::Emit { token: spec_plain_token(TokenType::Less, l), pos: k, line: l }
            }
        } else if c == '/' {
            if k < s.len() && s[k] == '/' {
                let (m, l2) = skip_to_line_end(s, k + 1, l);
                Step::Skip { pos: m, line: l2 }
            } else {
                Step::Emit { token: spec_plain_token(TokenType::Slash, l), pos: k, line: l }
            }
        } else if c == '"' {
            match string_close(s, k) {
                Some(q) => Step::Emit {
                    token: SpecToken {
                        token_type: TokenType::String,
                        value: Some(SpecTokenValue::Str(s.subrange(k, q))),
                        line: l,
                    },
                    pos: q + 1,
                    line: advance_lines(s, k, q + 1, l),
                },
                None => Step::Report {
                    error: LexError::UnterminatedString { line: l },
                    pos: s.len() as int,
                    line: advance_lines(s, k, s.len() as int, l),
                },
            }
        } else if is_digit_char(c) {
            let e = number_end(s, j);
            Step::Emit {
                token: SpecToken {
                    token_type: TokenType::Number,
                    value: Some(SpecTokenValue::Num(s.subrange(j, e))),
                    line: l,
                },
                pos: e,
                line: l,
            }
        } else if is_alpha_char(c) {
            let e = ident_end(s, k);
            Step::Emit { token: spec_word_token(s.subrange(j, e), l), pos: e, line: l }
        } else {
            Step::Report {
                error: LexError::UnrecognizedCharacter { line: l, character: c },
                pos: k,
                line: l,
            }
        }
    }
}

/// `skip_spaces` stays inside the text and never moves backwards.
pub proof fn lemma_skip_spaces_bounds(s: Seq<char>, i: int, line: u32)
    requires
        0 <= i <= s.len(),
    ensures
        i <= skip_spaces(s, i, line).0 <= s.len(),
    decreases s.len() - i,
{
    if 0 <= i < s.len() && is_space_char(s[i]) {
        lemma_skip_spaces_bounds(s, i + 1, bump_line(line, s[i]));
    }
}

/// `skip_to_line_end` stays inside the text and never moves backwards.
pub proof fn lemma_skip_to_line_end_bounds(s: Seq<char>, i: int, line: u32)
    requires
        0 <= i <= s.len(),
    ensures
        i <= skip_to_line_end(s, i, line).0 <= s.len(),
    decreases s.len() - i,
{
    if 0 <= i < s.len() && s[i] != '\n' {
        lemma_skip_to_line_end_bounds(s, i + 1, line);
    }
}

/// `digits_end` stays inside the text and never moves backwards.
pub proof fn lemma_digits_end_bounds(s: Seq<char>, i: int)
    requires
        0 <= i <= s.len(),
    ensures
        i <= digits_end(s, i) <= s.len(),
    decreases s.len() - i,
{
    if 0 <= i < s.len() && is_digit_char(s[i]) {
        lemma_digits_end_bounds(s, i + 1);
    }
}

/// `ident_end` stays inside the text and never moves backwards.
pub proof fn lemma_ident_end_bounds(s: Seq<char>, i: int)
    requires
        0 <= i <= s.len(),
    ensures
        i <= ident_end(s, i) <= s.len(),
    decreases s.len() - i,
{
    if 0 <= i < s.len() && is_alnum_char(s[i]) {
        lemma_ident_end_bounds(s, i + 1);
    }
}

/// A number literal ends past its first digit and inside the text.
pub proof fn lemma_number_end_bounds(s: Seq<char>, j: int)
    requires
        0 <= j < s.len(),
    ensures
        j < number_end(s, j) <= s.len(),
{
    lemma_digits_end_bounds(s, j + 1);
    let e = digits_end(s, j + 1);
    if e < s.len() && s[e] == '.' {
        lemma_digits_end_bounds(s, e + 1);
    }
}

/// A found closing quote lies inside the text, at or after the content
/// start, and is a quote.
pub proof fn lemma_string_close_bounds(s: Seq<char>, i: int)
    requires
        0 <= i <= s.len(),
    ensures
        match string_close(s, i) {
            Some(q) => i <= q < s.len() && s[q] == '"',
            None => true,
        },
    decreases s.len() - i,
{
    if 0 <= i < s.len() && s[i] != '"' {
        lemma_string_close_bounds(s, i + 1);
    }
}

/// Every outcome of a dispatch cycle that consumes input moves the position
/// strictly forward and stays inside the text.
pub proof fn lemma_step_at_bounds(s: Seq<char>, i: int, line: u32)
    requires
        0 <= i <= s.len(),
    ensures
        match step_at(s, i, line) {
            Step::Emit { pos, .. } => i < pos <= s.len(),
            Step::Skip { pos, .. } => i < pos <= s.len(),
            Step::Report { pos, .. } => i < pos <= s.len(),
            Step::Done { .. } => true,
        },
{
    lemma_skip_spaces_bounds(s, i, line);
    let (j, l) = skip_spaces(s, i, line);
    if j < s.len() {
        let c = s[j];
        let k = j + 1;
        if c == '/' && k < s.len() && s[k] == '/' {
            lemma_skip_to_line_end_bounds(s, k + 1, l);
        } else if c == '"' {
            lemma_string_close_bounds(s, k);
        } else if is_digit_char(c) {
            lemma_number_end_bounds(s, j);
        } else if is_alpha_char(c) {
            lemma_ident_end_bounds(s, k);
        }
    }
}

/// The tokens and the diagnostics of a scan that starts at position `i` on
/// line `line`: dispatch cycles repeated until the input is exhausted, then
/// one end-of-input token on the line reached.
pub open spec fn scan_from(s: Seq<char>, i: int, line: u32) -> (Seq<SpecToken>, Seq<LexError>)
    decreases s.len() - i,
        when 0 <= i <= s.len()
{
    proof {
        lemma_step_at_bounds(s, i, line);
    }
    match step_at(s, i, line) {
        Step::Done { line: l } => (seq![spec_plain_token(TokenType::Eof, l)], seq![]),
        Step::Emit { token, pos, line: l } => {
            let rest = scan_from(s, pos, l);
            (seq![token] + rest.0, rest.1)
        },
        Step::Skip { pos, line: l } => scan_from(s, pos, l),
        Step::Report { error, pos, line: l } => {
            let rest = scan_from(s, pos, l);
            (rest.0, seq![error] + rest.1)
        },
    }
}

/// The tokens and the diagnostics of a scan of the whole text.
pub open spec fn spec_scan(s: Seq<char>) -> (Seq<SpecToken>, Seq<LexError>) {
    scan_from(s, 0, 1)
}

} // verus!

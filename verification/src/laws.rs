//! Laws of the scanner, proved once of the model and therefore holding of
//! every scan: termination of the token sequence in exactly one
//! end-of-input marker, determinism, the payload discipline of the token
//! data model, monotone line numbers, and the unreachability of the
//! defensive number diagnostic.

use crate::model::{
    advance_lines, bump_line, is_space_char, lemma_step_at_bounds, scan_from, skip_spaces,
    skip_to_line_end, spec_scan, step_at, string_close, Step,
};
use crate::scanner::LexError;
use crate::token::{SpecToken, SpecTokenValue, TokenType};
use vstd::prelude::*;

verus! {

/// The payload discipline: Identifier and String tokens carry text, Number
/// tokens carry a number literal's text, and every other kind carries
/// nothing.
pub open spec fn payload_consistent(t: SpecToken) -> bool {
    if t.token_type == TokenType::Identifier || t.token_type == TokenType::String {
        t.value matches Some(SpecTokenValue::Str(_))
    } else if t.token_type == TokenType::Number {
        t.value matches Some(SpecTokenValue::Num(_))
    } else {
        t.value is None
    }
}

/// From any position, a scan's token sequence is non-empty, ends in the
/// end-of-input marker, contains no other such marker, and respects the
/// payload discipline; and its diagnostics never include the defensive
/// `InvalidNumberLiteral`.
pub proof fn lemma_scan_from_shape(s: Seq<char>, i: int, line: u32)
    requires
        0 <= i <= s.len(),
    ensures
        ({
            let (toks, errs) = scan_from(s, i, line);
            &&& toks.len() >= 1
            &&& toks.last().token_type == TokenType::Eof
            &&& forall|k: int|
                0 <= k < toks.len() - 1 ==> toks[k].token_type != TokenType::Eof
            &&& forall|k: int| 0 <= k < toks.len() ==> payload_consistent(#[trigger] toks[k])
            &&& forall|k: int|
                0 <= k < errs.len() ==> !(#[trigger] errs[k] matches
                LexError::InvalidNumberLiteral { .. })
        }),
    decreases s.len() - i,
{
    lemma_step_at_bounds(s, i, line);
    match step_at(s, i, line) {
        Step::Done { .. } => {},
        Step::Emit { token, pos, line: l } => {
            lemma_scan_from_shape(s, pos, l);
            let toks = scan_from(s, i, line).0;
            let rest = scan_from(s, pos, l).0;
            assert(toks.last() == rest.last());
            assert(forall|k: int| 1 <= k < toks.len() ==> toks[k] == rest[k - 1]);
        },
        Step::Skip { pos, line: l } => {
            lemma_scan_from_shape(s, pos, l);
        },
        Step::Report { error, pos, line: l } => {
            lemma_scan_from_shape(s, pos, l);
            let errs = scan_from(s, i, line).1;
            let rest = scan_from(s, pos, l).1;
            assert(forall|k: int| 1 <= k < errs.len() ==> errs[k] == rest[k - 1]);
        },
    }
}

/// For every input text: the last element of the scan's token sequence is
/// the end-of-input marker and no other element is; every token respects
/// the payload discipline; and no diagnostic is the defensive
/// `InvalidNumberLiteral`, which the accumulation grammar makes
/// unreachable.
pub proof fn lemma_scan_single_end_marker(s: Seq<char>)
    ensures
        spec_scan(s).0.len() >= 1,
        spec_scan(s).0.last().token_type == TokenType::Eof,
        forall|k: int|
            0 <= k < spec_scan(s).0.len() - 1 ==> spec_scan(s).0[k].token_type != TokenType::Eof,
        forall|k: int|
            0 <= k < spec_scan(s).0.len() ==> payload_consistent(#[trigger] spec_scan(s).0[k]),
        forall|k: int|
            0 <= k < spec_scan(s).1.len() ==> !(#[trigger] spec_scan(s).1[k] matches
            LexError::InvalidNumberLiteral { .. }),
{
    lemma_scan_from_shape(s, 0, 1);
}

/// Scanning is deterministic: two scans of the same immutable text yield
/// identical token and diagnostic sequences, because each is exactly the
/// model's answer for that text.
pub proof fn lemma_scan_deterministic(
    s: Seq<char>,
    first: (Seq<SpecToken>, Seq<LexError>),
    second: (Seq<SpecToken>, Seq<LexError>),
)
    requires
        first == spec_scan(s),
        second == spec_scan(s),
    ensures
        first == second,
{
}

/// Consuming codepoints never lowers the line counter.
proof fn lemma_advance_lines_monotone(s: Seq<char>, i: int, j: int, line: u32)
    ensures
        line <= advance_lines(s, i, j, line),
    decreases j - i,
{
    if i < j && 0 <= i < s.len() {
        lemma_advance_lines_monotone(s, i + 1, j, bump_line(line, s[i]));
    }
}

/// Discarding whitespace never lowers the line counter.
proof fn lemma_skip_spaces_monotone(s: Seq<char>, i: int, line: u32)
    ensures
        line <= skip_spaces(s, i, line).1,
    decreases s.len() - i,
{
    if 0 <= i < s.len() && is_space_char(s[i]) {
        lemma_skip_spaces_monotone(s, i + 1, bump_line(line, s[i]));
    }
}

/// Discarding a comment never lowers the line counter.
proof fn lemma_skip_to_line_end_monotone(s: Seq<char>, i: int, line: u32)
    ensures
        line <= skip_to_line_end(s, i, line).1,
    decreases s.len() - i,
{
    if 0 <= i < s.len() && s[i] != '\n' {
        lemma_skip_to_line_end_monotone(s, i + 1, line);
    }
}

/// One dispatch cycle never lowers the line counter, and a token it emits
/// lies on a line between the cycle's entry line and its exit line.
proof fn lemma_step_at_lines(s: Seq<char>, i: int, line: u32)
    requires
        0 <= i <= s.len(),
    ensures
        match step_at(s, i, line) {
            Step::Emit { token, pos, line: l } => line <= token.line <= l,
            Step::Skip { pos, line: l } => line <= l,
            Step::Report { error, pos, line: l } => line <= l,
            Step::Done { line: l } => line <= l,
        },
{
    lemma_skip_spaces_monotone(s, i, line);
    let (j, l) = skip_spaces(s, i, line);
    if j < s.len() {
        let c = s[j];
        let k = j + 1;
        if c == '/' && k < s.len() && s[k] == '/' {
            lemma_skip_to_line_end_monotone(s, k + 1, l);
        } else if c == '"' {
            lemma_advance_lines_monotone(s, k, s.len() as int, l);
            match string_close(s, k) {
                Some(q) => {
                    lemma_advance_lines_monotone(s, k, q + 1, l);
                },
                None => {},
            }
        }
    }
}

/// From any position, token lines never decrease along the sequence, and
/// no token lies on a line earlier than the scan's entry line.
pub proof fn lemma_scan_from_lines(s: Seq<char>, i: int, line: u32)
    requires
        0 <= i <= s.len(),
    ensures
        ({
            let toks = scan_from(s, i, line).0;
            &&& forall|k: int| 0 <= k < toks.len() ==> line <= (#[trigger] toks[k]).line
            &&& forall|k1: int, k2: int|
                0 <= k1 <= k2 < toks.len() ==> (#[trigger] toks[k1]).line <= (
                #[trigger] toks[k2]).line
        }),
    decreases s.len() - i,
{
    lemma_step_at_bounds(s, i, line);
    lemma_step_at_lines(s, i, line);
    match step_at(s, i, line) {
        Step::Done { .. } => {},
        Step::Emit { token, pos, line: l } => {
            lemma_scan_from_lines(s, pos, l);
            let toks = scan_from(s, i, line).0;
            let rest = scan_from(s, pos, l).0;
            assert(forall|k: int| 1 <= k < toks.len() ==> toks[k] == rest[k - 1]);
        },
        Step::Skip { pos, line: l } => {
            lemma_scan_from_lines(s, pos, l);
        },
        Step::Report { error, pos, line: l } => {
            lemma_scan_from_lines(s, pos, l);
        },
    }
}

/// The line numbers of a scan's tokens are monotonically non-decreasing
/// across the emitted sequence.
pub proof fn lemma_scan_lines_monotone(s: Seq<char>)
    ensures
        forall|k1: int, k2: int|
            0 <= k1 <= k2 < spec_scan(s).0.len() ==> (#[trigger] spec_scan(s).0[k1]).line <= (
            #[trigger] spec_scan(s).0[k2]).line,
{
    lemma_scan_from_lines(s, 0, 1);
}

} // verus!

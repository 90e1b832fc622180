//! The executable scanner.
//!
//! [`Scanner::scan`] converts source text into the token sequence and the
//! diagnostic sequence given by the mathematical model in [`crate::model`]:
//! its contract states that the result equals [`spec_scan`] of the input,
//! so every property proved of the model holds of the scanner.

use crate::model::{
    advance_lines, bump_line, digits_end, ident_end, is_alnum_char, is_alpha_char, is_digit_char,
    is_space_char, keyword_token, lemma_advance_lines_snoc, lemma_ident_end_bounds,
    lemma_number_end_bounds, number_end, scan_from, skip_spaces, skip_to_line_end, spec_scan,
    spec_word_token, string_close,
};
use crate::token::{spec_plain_token, token_views, SpecToken, SpecTokenValue, Token, TokenType};
use vstd::prelude::*;

verus! {

broadcast use vstd::string::group_string_axioms;

/// A recoverable lexical diagnostic: scanning records it and resumes from
/// the next unconsumed codepoint rather than abort.
#[derive(Debug, Clone, Copy, PartialEq, Eq, Structural)]
pub enum LexError {
    /// A quote was opened and the input ended before a closing quote; the
    /// line is the one on which the string began.
    UnterminatedString { line: u32 },
    /// A codepoint matched none of the classification rules.
    UnrecognizedCharacter { line: u32, character: char },
    /// Defensive only: the number-accumulation grammar makes this
    /// unreachable, and the scanner is proved never to record it.
    InvalidNumberLiteral { line: u32 },
}

/// Whether `c` has the Unicode `White_Space` property.
pub fn is_space(c: char) -> (r: bool)
    ensures
        r == is_space_char(c),
{
    let u = c as u32;
    (0x09 <= u && u <= 0x0d) || u == 0x20 || u == 0x85 || u == 0xa0 || u == 0x1680 || (0x2000 <= u
        && u <= 0x200a) || u == 0x2028 || u == 0x2029 || u == 0x202f || u == 0x205f || u == 0x3000
}

/// Whether `c` is a decimal digit.
pub fn is_digit(c: char) -> (r: bool)
    ensures
        r == is_digit_char(c),
{
    let u = c as u32;
    0x30 <= u && u <= 0x39
}

/// Whether `c` is an ASCII letter.
pub fn is_alpha(c: char) -> (r: bool)
    ensures
        r == is_alpha_char(c),
{
    let u = c as u32;
    (0x61 <= u && u <= 0x7a) || (0x41 <= u && u <= 0x5a)
}

/// Whether `c` may continue an identifier.
pub fn is_alnum(c: char) -> (r: bool)
    ensures
        r == is_alnum_char(c),
{
    is_alpha(c) || is_digit(c)
}

/// The codepoints of `s`, in order, as an indexable buffer.
fn chars_of(s: &str) -> (r: Vec<char>)
    ensures
        r@ == s@,
{
    let mut v: Vec<char> = Vec::new();
    for c in it: s.chars()
        invariant
            v@ == it.seq().take(it.index() as int),
    {
        v.push(c);
    }
    assert(v@ =~= s@);
    v
}

/// The fixed keyword table: each reserved spelling in scanning order, with
/// its token kind.
pub open spec fn table_matches(t: Seq<(String, TokenType)>) -> bool {
    &&& t.len() == 16
    &&& t[0].0@ == "and"@ && t[0].1 == TokenType::And
    &&& t[1].0@ == "class"@ && t[1].1 == TokenType::Class
    &&& t[2].0@ == "else"@ && t[2].1 == TokenType::Else
    &&& t[3].0@ == "false"@ && t[3].1 == TokenType::False
    &&& t[4].0@ == "fun"@ && t[4].1 == TokenType::Fun
    &&& t[5].0@ == "for"@ && t[5].1 == TokenType::For
    &&& t[6].0@ == "if"@ && t[6].1 == TokenType::If
    &&& t[7].0@ == "nil"@ && t[7].1 == TokenType::Nil
    &&& t[8].0@ == "or"@ && t[8].1 == TokenType::Or
    &&& t[9].0@ == "print"@ && t[9].1 == TokenType::Print
    &&& t[10].0@ == "return"@ && t[10].1 == TokenType::Return
    &&& t[11].0@ == "super"@ && t[11].1 == TokenType::Super
    &&& t[12].0@ == "this"@ && t[12].1 == TokenType::This
    &&& t[13].0@ == "true"@ && t[13].1 == TokenType::True
    &&& t[14].0@ == "var"@ && t[14].1 == TokenType::Var
    &&& t[15].0@ == "while"@ && t[15].1 == TokenType::While
}

/// The scanner: an exclusive cursor into an immutable buffer of
/// codepoints, a 1-based line counter, the keyword table, and the
/// diagnostics collected so far.
pub struct Scanner {
    input: Vec<char>,
    current_pos: usize,
    last_read_char: Option<char>,
    keyword_to_token: Vec<(String, TokenType)>,
    line: u32,
    errors: Vec<LexError>,
}

impl Scanner {
    /// The source text being scanned.
    pub closed spec fn src(&self) -> Seq<char> {
        self.input@
    }

    /// The cursor position, as a codepoint index into the text.
    pub closed spec fn pos(&self) -> int {
        self.current_pos as int
    }

    /// The current 1-based line number.
    pub closed spec fn line_no(&self) -> u32 {
        self.line
    }

    /// The most recently consumed codepoint, if any.
    pub closed spec fn last(&self) -> Option<char> {
        self.last_read_char
    }

    /// The diagnostics recorded so far, in order of occurrence.
    pub closed spec fn errs(&self) -> Seq<LexError> {
        self.errors@
    }

    /// The scanner's invariant: the cursor lies inside the text and the
    /// keyword table holds exactly the reserved spellings.
    pub closed spec fn wf(&self) -> bool {
        &&& self.current_pos <= self.input.len()
        &&& table_matches(self.keyword_to_token@)
    }

    /// Builds the immutable map from reserved spelling to token kind.
    pub fn create_keyword_map() -> (r: Vec<(String, TokenType)>)
        ensures
            table_matches(r@),
    {
        let mut map: Vec<(String, TokenType)> = Vec::new();
        map.push((String::from_str("and"), TokenType::And));
        map.push((String::from_str("class"), TokenType::Class));
        map.push((String::from_str("else"), TokenType::Else));
        map.push((String::from_str("false"), TokenType::False));
        map.push((String::from_str("fun"), TokenType::Fun));
        map.push((String::from_str("for"), TokenType::For));
        map.push((String::from_str("if"), TokenType::If));
        map.push((String::from_str("nil"), TokenType::Nil));
        map.push((String::from_str("or"), TokenType::Or));
        map.push((String::from_str("print"), TokenType::Print));
        map.push((String::from_str("return"), TokenType::Return));
        map.push((String::from_str("super"), TokenType::Super));
        map.push((String::from_str("this"), TokenType::This));
        map.push((String::from_str("true"), TokenType::True));
        map.push((String::from_str("var"), TokenType::Var));
        map.push((String::from_str("while"), TokenType::While));
        map
    }

    /// Makes a scanner that stands at the start of `input`, on line 1, with
    /// nothing read and no diagnostics.
    pub fn new(input: &String) -> (r: Scanner)
        ensures
            r.wf(),
            r.src() == input@,
            r.pos() == 0,
            r.line_no() == 1,
            r.last() == None::<char>,
            r.errs() == Seq::<LexError>::empty(),
    {
        Scanner {
            input: chars_of(input.as_str()),
            current_pos: 0,
            last_read_char: None,
            keyword_to_token: Self::create_keyword_map(),
            line: 1,
            errors: Vec::new(),
        }
    }

    /// Returns the next codepoint without consuming it, or `None` at
    /// end of input.  Pure: the scanner is left unchanged.
    pub fn peek_char(&mut self) -> (r: Option<char>)
        ensures
            *final (self) == *old(self),
            r == (if old(self).pos() < old(self).src().len() {
                Some(old(self).src()[old(self).pos()])
            } else {
                None::<char>
            }),
    {
        if self.current_pos >= self.input.len() {
            None
        } else {
            Some(self.input[self.current_pos])
        }
    }

    /// Consumes and returns the next codepoint, or returns `None` at end of
    /// input.  The cursor advances by one codepoint and the line counter
    /// moves past a consumed newline.
    pub fn read_char(&mut self) -> (r: Option<char>)
        requires
            old(self).wf(),
        ensures
            final (self).wf(),
            final (self).src() == old(self).src(),
            final (self).errs() == old(self).errs(),
            if old(self).pos() < old(self).src().len() {
                let c = old(self).src()[old(self).pos()];
                r == Some(c) && final (self).pos() == old(self).pos() + 1 && final (self).line_no()
                    == bump_line(old(self).line_no(), c) && final (self).last() == Some(c)
            } else {
                r == None::<char> && final (self).pos() == old(self).pos()
                    && final (self).line_no() == old(self).line_no()
                    && final (self).last() == None::<char>
            },
    {
        let next_char = self.peek_char();
        if next_char.is_some() {
            self.current_pos = self.current_pos + 1;
        }
        self.last_read_char = next_char;
        if let Some(c) = next_char {
            if c == '\n' && self.line < u32::MAX {
                self.line = self.line + 1;
            }
        }
        next_char
    }

    /// If the next codepoint equals `to_match`, consumes it and returns
    /// true; otherwise leaves the scanner unchanged and returns false.
    pub fn match_char(&mut self, to_match: char) -> (r: bool)
        requires
            old(self).wf(),
        ensures
            final (self).wf(),
            final (self).src() == old(self).src(),
            final (self).errs() == old(self).errs(),
            if old(self).pos() < old(self).src().len() && old(self).src()[old(self).pos()]
                == to_match {
                r && final (self).pos() == old(self).pos() + 1 && final (self).line_no()
                    == bump_line(old(self).line_no(), to_match) && final (self).last() == Some(
                    to_match,
                )
            } else {
                !r && *final (self) == *old(self)
            },
    {
        if let Some(next_char) = self.peek_char() {
            if next_char == to_match {
                self.read_char();
                return true;
            }
        }
        false
    }

    /// Discards the maximal run of whitespace codepoints at the cursor.
    pub fn skip_white_space(&mut self)
        requires
            old(self).wf(),
        ensures
            final (self).wf(),
            final (self).src() == old(self).src(),
            final (self).errs() == old(self).errs(),
            old(self).pos() <= final (self).pos(),
            (final (self).pos(), final (self).line_no()) == skip_spaces(
                old(self).src(),
                old(self).pos(),
                old(self).line_no(),
            ),
            final (self).pos() == final (self).src().len() || !is_space_char(
                final (self).src()[final (self).pos()],
            ),
    {
        loop
            invariant
                self.wf(),
                self.src() == old(self).src(),
                self.errs() == old(self).errs(),
                old(self).pos() <= self.pos(),
                skip_spaces(self.src(), self.pos(), self.line_no()) == skip_spaces(
                    old(self).src(),
                    old(self).pos(),
                    old(self).line_no(),
                ),
            ensures
                self.wf(),
                self.src() == old(self).src(),
                self.errs() == old(self).errs(),
                old(self).pos() <= self.pos(),
                (self.pos(), self.line_no()) == skip_spaces(
                    old(self).src(),
                    old(self).pos(),
                    old(self).line_no(),
                ),
                self.pos() == self.src().len() || !is_space_char(self.src()[self.pos()]),
            decreases self.src().len() - self.pos(),
        {
            let c_opt = self.peek_char();
            let advance = match c_opt {
                Some(c) => is_space(c),
                None => false,
            };
            if !advance {
                break ;
            }
            self.read_char();
        }
    }

    /// Discards the rest of the current line, including its terminating
    /// newline if the input has one.  Intended to consume single-line
    /// comments.
    pub fn skip_rest_of_line(&mut self)
        requires
            old(self).wf(),
        ensures
            final (self).wf(),
            final (self).src() == old(self).src(),
            final (self).errs() == old(self).errs(),
            old(self).pos() <= final (self).pos(),
            (final (self).pos(), final (self).line_no()) == skip_to_line_end(
                old(self).src(),
                old(self).pos(),
                old(self).line_no(),
            ),
    {
        loop
            invariant_except_break
                skip_to_line_end(self.src(), self.pos(), self.line_no()) == skip_to_line_end(
                    old(self).src(),
                    old(self).pos(),
                    old(self).line_no(),
                ),
            invariant
                self.wf(),
                self.src() == old(self).src(),
                self.errs() == old(self).errs(),
                old(self).pos() <= self.pos(),
            ensures
                self.wf(),
                self.src() == old(self).src(),
                self.errs() == old(self).errs(),
                old(self).pos() <= self.pos(),
                (self.pos(), self.line_no()) == skip_to_line_end(
                    old(self).src(),
                    old(self).pos(),
                    old(self).line_no(),
                ),
            decreases self.src().len() - self.pos(),
        {
            let c_opt = self.peek_char();
            match c_opt {
                None => {
                    break ;
                },
                Some(next_char) => {
                    self.read_char();
                    if next_char == '\n' {
                        break ;
                    }
                },
            }
        }
    }

    /// Looks a spelling up in the keyword table.
    fn lookup_keyword(&self, word: &String) -> (r: Option<TokenType>)
        requires
            self.wf(),
        ensures
            r == keyword_token(word@),
    {
        let mut idx: usize = 0;
        while idx < self.keyword_to_token.len()
            invariant
                self.wf(),
                idx <= self.keyword_to_token@.len(),
                forall|j: int| 0 <= j < idx ==> self.keyword_to_token@[j].0@ != word@,
            decreases self.keyword_to_token@.len() - idx,
        {
            let entry = &self.keyword_to_token[idx];
            if *word == entry.0 {
                return Some(entry.1);
            }
            idx = idx + 1;
        }
        None
    }

    /// Accumulates a string literal.  Entered with the opening quote
    /// already consumed: consumes codepoints up to and including the
    /// closing quote and returns a String token carrying the text between
    /// the quotes, anchored at the line where the string began.  When the
    /// input ends first, records an `UnterminatedString` diagnostic
    /// anchored at that same line and returns no token.
    fn read_string_literal(&mut self) -> (r: Option<Token>)
        requires
            old(self).wf(),
        ensures
            final (self).wf(),
            final (self).src() == old(self).src(),
            old(self).pos() <= final (self).pos() <= final (self).src().len(),
            ({
                let s = old(self).src();
                let i = old(self).pos();
                let l = old(self).line_no();
                match string_close(s, i) {
                    Some(q) => {
                        &&& r matches Some(t) && t@ == (SpecToken {
                            token_type: TokenType::String,
                            value: Some(SpecTokenValue::Str(s.subrange(i, q))),
                            line: l,
                        })
                        &&& final (self).pos() == q + 1
                        &&& final (self).line_no() == advance_lines(s, i, q + 1, l)
                        &&& final (self).errs() == old(self).errs()
                    },
                    None => {
                        &&& r is None
                        &&& final (self).pos() == s.len()
                        &&& final (self).line_no() == advance_lines(s, i, s.len() as int, l)
                        &&& final (self).errs() == old(self).errs().push(
                            LexError::UnterminatedString { line: l },
                        )
                    },
                }
            }),
    {
        let start_line = self.line;
        let mut string = String::new();
        loop
            invariant
                self.wf(),
                self.src() == old(self).src(),
                self.errs() == old(self).errs(),
                old(self).pos() <= self.pos() <= self.src().len(),
                start_line == old(self).line_no(),
                string_close(self.src(), old(self).pos()) == string_close(
                    self.src(),
                    self.pos(),
                ),
                string@ == self.src().subrange(old(self).pos(), self.pos()),
                self.line_no() == advance_lines(
                    self.src(),
                    old(self).pos(),
                    self.pos(),
                    old(self).line_no(),
                ),
            decreases self.src().len() - self.pos(),
        {
            let ghost p = self.pos();
            let c_opt = self.read_char();
            match c_opt {
                None => {
                    self.errors.push(LexError::UnterminatedString { line: start_line });
                    return None;
                },
                Some(character) => {
                    if character == '"' {
                        proof {
                            lemma_advance_lines_snoc(
                                self.src(),
                                old(self).pos(),
                                p,
                                old(self).line_no(),
                            );
                        }
                        return Some(
                            Token::create_with_string(TokenType::String, start_line, string),
                        );
                    }
                    push_char(&mut string, character);
                    proof {
                        lemma_advance_lines_snoc(
                            self.src(),
                            old(self).pos(),
                            p,
                            old(self).line_no(),
                        );
                        assert(self.src().subrange(old(self).pos(), p + 1)
                            =~= self.src().subrange(old(self).pos(), p).push(self.src()[p]));
                    }
                },
            }
        }
    }

    /// Accumulates a number literal.  Entered with the first digit already
    /// consumed: consumes the maximal run of digits, then optionally one
    /// `.` and another maximal run of digits, and returns a Number token
    /// carrying the accumulated text.  The accumulation grammar only
    /// produces valid decimal forms, so no diagnostic can arise here.
    fn read_number(&mut self) -> (r: Option<Token>)
        requires
            old(self).wf(),
            old(self).pos() >= 1,
            old(self).last() == Some(old(self).src()[old(self).pos() - 1]),
            is_digit_char(old(self).src()[old(self).pos() - 1]),
        ensures
            final (self).wf(),
            final (self).src() == old(self).src(),
            final (self).errs() == old(self).errs(),
            final (self).line_no() == old(self).line_no(),
            ({
                let s = old(self).src();
                let j = old(self).pos() - 1;
                &&& r matches Some(t) && t@ == (SpecToken {
                    token_type: TokenType::Number,
                    value: Some(SpecTokenValue::Num(s.subrange(j, number_end(s, j)))),
                    line: old(self).line_no(),
                })
                &&& final (self).pos() == number_end(s, j)
            }),
    {
        let ghost s = self.src();
        let ghost j = self.pos() - 1;
        let mut number = String::new();
        let first_digit = self.last_read_char.unwrap();
        push_char(&mut number, first_digit);
        proof {
            assert(number@ =~= s.subrange(j, j + 1));
        }
        // The leading digits.
        loop
            invariant
                self.wf(),
                self.src() == s,
                self.errs() == old(self).errs(),
                self.line_no() == old(self).line_no(),
                0 <= j,
                j + 1 <= self.pos() <= s.len(),
                digits_end(s, j + 1) == digits_end(s, self.pos()),
                number@ == s.subrange(j, self.pos()),
            ensures
                digits_end(s, j + 1) == self.pos(),
            decreases s.len() - self.pos(),
        {
            let ghost p = self.pos();
            let c_opt = self.peek_char();
            let more = match c_opt {
                Some(d) => is_digit(d),
                None => false,
            };
            if !more {
                break ;
            }
            let d = c_opt.unwrap();
            self.read_char();
            push_char(&mut number, d);
            proof {
                assert(s.subrange(j, p + 1) =~= s.subrange(j, p).push(s[p]));
            }
        }
        // The optional decimal point.
        let dot_opt = self.peek_char();
        let mut has_dot = false;
        match dot_opt {
            Some(d) => {
                if d == '.' {
                    has_dot = true;
                }
            },
            None => {},
        }
        if has_dot {
            let ghost e = self.pos();
            self.read_char();
            push_char(&mut number, '.');
            proof {
                assert(s.subrange(j, e + 1) =~= s.subrange(j, e).push(s[e]));
            }
            // The trailing digits.
            loop
                invariant
                    self.wf(),
                    self.src() == s,
                    self.errs() == old(self).errs(),
                    self.line_no() == old(self).line_no(),
                    0 <= j < e,
                    e + 1 <= self.pos() <= s.len(),
                    digits_end(s, e + 1) == digits_end(s, self.pos()),
                    number@ == s.subrange(j, self.pos()),
                    number_end(s, j) == digits_end(s, e + 1),
                ensures
                    digits_end(s, e + 1) == self.pos(),
                decreases s.len() - self.pos(),
            {
                let ghost p = self.pos();
                let c_opt = self.peek_char();
                let more = match c_opt {
                    Some(d) => is_digit(d),
                    None => false,
                };
                if !more {
                    break ;
                }
                let d = c_opt.unwrap();
                self.read_char();
                push_char(&mut number, d);
                proof {
                    assert(s.subrange(j, p + 1) =~= s.subrange(j, p).push(s[p]));
                }
            }
        }
        Some(Token::create_with_number(TokenType::Number, self.line, number))
    }

    /// Accumulates an identifier.  Entered with its first letter already
    /// consumed: consumes the maximal run of alphanumeric codepoints, then
    /// consults the keyword table; a hit yields the reserved kind with no
    /// payload, a miss an Identifier carrying the spelling.
    fn read_identifier_or_keyword(&mut self) -> (r: Option<Token>)
        requires
            old(self).wf(),
            old(self).pos() >= 1,
            old(self).last() == Some(old(self).src()[old(self).pos() - 1]),
            is_alpha_char(old(self).src()[old(self).pos() - 1]),
        ensures
            final (self).wf(),
            final (self).src() == old(self).src(),
            final (self).errs() == old(self).errs(),
            final (self).line_no() == old(self).line_no(),
            ({
                let s = old(self).src();
                let j = old(self).pos() - 1;
                let e = ident_end(s, j + 1);
                &&& r matches Some(t) && t@ == spec_word_token(
                    s.subrange(j, e),
                    old(self).line_no(),
                )
                &&& final (self).pos() == e
            }),
    {
        let ghost s = self.src();
        let ghost j = self.pos() - 1;
        let mut string = String::new();
        let first_char = self.last_read_char.unwrap();
        push_char(&mut string, first_char);
        proof {
            assert(string@ =~= s.subrange(j, j + 1));
        }
        loop
            invariant
                self.wf(),
                self.src() == s,
                self.errs() == old(self).errs(),
                self.line_no() == old(self).line_no(),
                0 <= j,
                j + 1 <= self.pos() <= s.len(),
                ident_end(s, j + 1) == ident_end(s, self.pos()),
                string@ == s.subrange(j, self.pos()),
            ensures
                ident_end(s, j + 1) == self.pos(),
            decreases s.len() - self.pos(),
        {
            let ghost p = self.pos();
            let c_opt = self.peek_char();
            let more = match c_opt {
                Some(next_char) => is_alnum(next_char),
                None => false,
            };
            if !more {
                break ;
            }
            let next_char = c_opt.unwrap();
            self.read_char();
            push_char(&mut string, next_char);
            proof {
                assert(s.subrange(j, p + 1) =~= s.subrange(j, p).push(s[p]));
            }
        }
        // Check whether this identifier is a keyword.
        match self.lookup_keyword(&string) {
            Some(token_type) => Some(Token::create(token_type, self.line)),
            None => Some(Token::create_with_string(TokenType::Identifier, self.line, string)),
        }
    }

    /// Produces the next token, or `None` once the input is exhausted.
    /// Comments and whitespace are discarded on the way; diagnostics for
    /// unterminated strings and unrecognized codepoints are recorded and
    /// scanning carries on, so `None` means end of input and nothing else.
    fn next_token(&mut self) -> (r: Option<Token>)
        requires
            old(self).wf(),
        ensures
            final (self).wf(),
            final (self).src() == old(self).src(),
            old(self).pos() <= final (self).pos() <= final (self).src().len(),
            old(self).errs().is_prefix_of(final (self).errs()),
            ({
                let s = old(self).src();
                let before = scan_from(s, old(self).pos(), old(self).line_no());
                let after = scan_from(s, final (self).pos(), final (self).line_no());
                let delta = final (self).errs().skip(old(self).errs().len() as int);
                match r {
                    Some(t) => {
                        &&& old(self).pos() < final (self).pos()
                        &&& before.0 == seq![t@] + after.0
                        &&& before.1 == delta + after.1
                    },
                    None => {
                        &&& final (self).pos() == s.len()
                        &&& before.0 == seq![
                            spec_plain_token(TokenType::Eof, final (self).line_no()),
                        ]
                        &&& before.1 == delta
                    },
                }
            }),
    {
        let ghost n0 = old(self).errs().len() as int;
        loop
            invariant
                self.wf(),
                self.src() == old(self).src(),
                old(self).pos() <= self.pos() <= self.src().len(),
                old(self).errs().is_prefix_of(self.errs()),
                scan_from(self.src(), old(self).pos(), old(self).line_no()).0 == scan_from(
                    self.src(),
                    self.pos(),
                    self.line_no(),
                ).0,
                scan_from(self.src(), old(self).pos(), old(self).line_no()).1 == self.errs().skip(
                    n0,
                ) + scan_from(self.src(), self.pos(), self.line_no()).1,
                n0 == old(self).errs().len(),
            decreases self.src().len() - self.pos(),
        {
            let ghost s = self.src();
            let ghost e_it = self.errs();
            self.skip_white_space();
            let ghost p1 = self.pos();
            let ghost l1 = self.line_no();
            let c_opt = self.read_char();
            match c_opt {
                None => {
                    proof {
                        assert(self.errs().skip(n0) + Seq::<LexError>::empty() =~= self.errs().skip(
                            n0,
                        ));
                    }
                    return None;
                },
                Some(c) => {
                    // Tokens of a single fixed codepoint.
                    if c == '(' {
                        return Some(Token::create(TokenType::LeftParen, self.line));
                    } else if c == ')' {
                        return Some(Token::create(TokenType::RightParen, self.line));
                    } else if c == '{' {
                        return Some(Token::create(TokenType::LeftBrace, self.line));
                    } else if c == '}' {
                        return Some(Token::create(TokenType::RightBrace, self.line));
                    } else if c == ',' {
                        return Some(Token::create(TokenType::Comma, self.line));
                    } else if c == '.' {
                        return Some(Token::create(TokenType::Dot, self.line));
                    } else if c == '-' {
                        return Some(Token::create(TokenType::Minus, self.line));
                    } else if c == '+' {
                        return Some(Token::create(TokenType::Plus, self.line));
                    } else if c == ';' {
                        return Some(Token::create(TokenType::Semicolon, self.line));
                    } else if c == '*' {
                        return Some(Token::create(TokenType::Star, self.line));
                    } else if c == '!' {
                        // Maximal munch: the two-codepoint operator wins.
                        let kind = if self.match_char('=') {
                            TokenType::BangEqual
                        } else {
                            TokenType::Bang
                        };
                        return Some(Token::create(kind, self.line));
                    } else if c == '=' {
                        let kind = if self.match_char('=') {
                            TokenType::EqualEqual
                        } else {
                            TokenType::Equal
                        };
                        return Some(Token::create(kind, self.line));
                    } else if c == '>' {
                        let kind = if self.match_char('=') {
                            TokenType::GreaterEqual
                        } else {
                            TokenType::Greater
                        };
                        return Some(Token::create(kind, self.line));
                    } else if c == '<' {
                        let kind = if self.match_char('=') {
                            TokenType::LessEqual
                        } else {
                            TokenType::Less
                        };
                        return Some(Token::create(kind, self.line));
                    } else if c == '/' {
                        // A second slash begins a comment that runs to the
                        // end of the line and produces no token.
                        if self.match_char('/') {
                            self.skip_rest_of_line();
                        } else {
                            return Some(Token::create(TokenType::Slash, self.line));
                        }
                    } else if c == '"' {
                        match self.read_string_literal() {
                            Some(token) => {
                                return Some(token);
                            },
                            None => {
                                // Unterminated: the diagnostic is recorded
                                // and the cursor stands at end of input.
                                proof {
                                    let err = LexError::UnterminatedString { line: l1 };
                                    assert(self.errs() =~= e_it.push(err));
                                    assert(self.errs().skip(n0) =~= e_it.skip(n0).push(err));
                                    assert(e_it.skip(n0) + (seq![err] + scan_from(
                                        s,
                                        self.pos(),
                                        self.line_no(),
                                    ).1) =~= self.errs().skip(n0) + scan_from(
                                        s,
                                        self.pos(),
                                        self.line_no(),
                                    ).1);
                                }
                            },
                        }
                    } else if is_digit(c) {
                        proof {
                            lemma_number_end_bounds(s, p1);
                        }
                        return self.read_number();
                    } else if is_alpha(c) {
                        proof {
                            lemma_ident_end_bounds(s, p1 + 1);
                        }
                        return self.read_identifier_or_keyword();
                    } else {
                        // No rule matches: record the codepoint and resume
                        // from the next one.
                        let err = LexError::UnrecognizedCharacter {
                            line: self.line,
                            character: c,
                        };
                        self.errors.push(err);
                        proof {
                            assert(self.errs() =~= e_it.push(err));
                            assert(self.errs().skip(n0) =~= e_it.skip(n0).push(err));
                            assert(e_it.skip(n0) + (seq![err] + scan_from(
                                s,
                                self.pos(),
                                self.line_no(),
                            ).1) =~= self.errs().skip(n0) + scan_from(
                                s,
                                self.pos(),
                                self.line_no(),
                            ).1);
                        }
                    }
                },
            }
        }
    }

    /// Scans the whole text in one pass: the resulting token sequence is
    /// exactly `spec_scan` of the input — every token the model names, in
    /// order, ending in the one end-of-input marker — and the diagnostics
    /// are exactly the model's, in order of occurrence.
    pub fn scan(input: &String) -> (r: (Vec<Token>, Vec<LexError>))
        ensures
            token_views(r.0@) == spec_scan(input@).0,
            r.1@ == spec_scan(input@).1,
    {
        let mut scanner = Scanner::new(input);
        let mut tokens = Vec::<Token>::new();
        proof {
            assert(token_views(tokens@) + spec_scan(input@).0 =~= spec_scan(input@).0);
            assert(scanner.errs() + spec_scan(input@).1 =~= spec_scan(input@).1);
        }
        loop
            invariant
                scanner.wf(),
                scanner.src() == input@,
                0 <= scanner.pos() <= input@.len(),
                spec_scan(input@).0 == token_views(tokens@) + scan_from(
                    input@,
                    scanner.pos(),
                    scanner.line_no(),
                ).0,
                spec_scan(input@).1 == scanner.errs() + scan_from(
                    input@,
                    scanner.pos(),
                    scanner.line_no(),
                ).1,
            ensures
                spec_scan(input@).0 == token_views(tokens@).push(
                    spec_plain_token(TokenType::Eof, scanner.line_no()),
                ),
                spec_scan(input@).1 == scanner.errs(),
            decreases input@.len() - scanner.pos(),
        {
            let ghost e_it = scanner.errs();
            let ghost toks_it = tokens@;
            match scanner.next_token() {
                Some(token) => {
                    proof {
                        assert(scanner.errs() =~= e_it + scanner.errs().skip(e_it.len() as int));
                        assert((e_it + scanner.errs().skip(e_it.len() as int)) + scan_from(
                            input@,
                            scanner.pos(),
                            scanner.line_no(),
                        ).1 =~= scanner.errs() + scan_from(
                            input@,
                            scanner.pos(),
                            scanner.line_no(),
                        ).1);
                    }
                    tokens.push(token);
                    proof {
                        assert(token_views(tokens@) =~= token_views(toks_it).push(token@));
                        assert(token_views(toks_it) + (seq![token@] + scan_from(
                            input@,
                            scanner.pos(),
                            scanner.line_no(),
                        ).0) =~= token_views(tokens@) + scan_from(
                            input@,
                            scanner.pos(),
                            scanner.line_no(),
                        ).0);
                    }
                },
                None => {
                    proof {
                        assert(scanner.errs() =~= e_it + scanner.errs().skip(e_it.len() as int));
                        assert(token_views(tokens@) + seq![
                            spec_plain_token(TokenType::Eof, scanner.line_no()),
                        ] =~= token_views(tokens@).push(
                            spec_plain_token(TokenType::Eof, scanner.line_no()),
                        ));
                        assert(scanner.errs() + Seq::<LexError>::empty() =~= scanner.errs());
                    }
                    break ;
                },
            }
        }
        let eof_token = Token::create(TokenType::Eof, scanner.line);
        tokens.push(eof_token);
        proof {
            assert(token_views(tokens@) =~= spec_scan(input@).0);
        }
        (tokens, scanner.errors)
    }
}

/// Relies on `String::push`: appends exactly the one codepoint to the end
/// of the string.
#[verifier::external_body]
fn push_char(s: &mut String, c: char)
    ensures
        final (s)@ == old(s)@.push(c),
{
    s.push(c);
}

} // verus!

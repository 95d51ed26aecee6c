//! The lexer: turns the characters of a dice expression into [`Token`]s.
use vstd::prelude::*;

use crate::error::RollatoriumError;
use crate::text::{
    all_digits, chars_of, decimal, digits_value, is_digit, is_whitespace, lemma_compare_digits, owned,
    push_chars, push_decimal, spec_is_digit, spec_is_whitespace, string_of, trim, trim_end, trim_start,
};
use crate::token::Token;
use vstd::string::StringExecFns;

verus! {

/// The smallest integer that a decimal literal may reach before it no longer
/// fits a finite `f64`: 2^1024 − 2^970, the midpoint between `f64::MAX` and
/// 2^1024. A literal whose value reaches it rounds to infinity.
pub const F64_LIMIT: &'static str = "179769313486231580793728971405303415079934132710037826936173778980444968292764750946649017977587207096330286416692887910946555547851940402630657488671505820681908902000708383676273854845817711531764475730270069855571366959622842914819860834936475292719074168444365510704342711559699508093042880177904174497792";

/// The character at `i`, or `'\0'` past either end.
pub open spec fn peek_at(chars: Seq<char>, i: int) -> char {
    if 0 <= i < chars.len() {
        chars[i]
    } else {
        '\0'
    }
}

/// The first position at or after `pos` that does not hold white space.
pub open spec fn skip_whitespace(chars: Seq<char>, pos: int) -> int
    decreases chars.len() - pos,
{
    if 0 <= pos < chars.len() && spec_is_whitespace(chars[pos]) {
        skip_whitespace(chars, pos + 1)
    } else {
        pos
    }
}

/// The first position at or after `pos` that holds `]`, or the end.
pub open spec fn annotation_end(chars: Seq<char>, pos: int) -> int
    decreases chars.len() - pos,
{
    if 0 <= pos < chars.len() && chars[pos] != ']' {
        annotation_end(chars, pos + 1)
    } else {
        pos
    }
}

/// The token that the two characters `a b` spell, if they spell one.
pub open spec fn pair_token(a: char, b: char) -> Option<Token<Seq<char>>> {
    if a == '/' && b == '/' {
        Some(Token::DoubleSlash)
    } else if a == '=' && b == '=' {
        Some(Token::EqualEqual)
    } else if a == '!' && b == '=' {
        Some(Token::NotEqual)
    } else if a == '>' && b == '=' {
        Some(Token::GreaterEqual)
    } else if a == '<' && b == '=' {
        Some(Token::LessEqual)
    } else if a == 'r' && b == 'r' {
        Some(Token::Reroll)
    } else if a == 'r' && b == 'o' {
        Some(Token::RerollOnce)
    } else if a == 'r' && b == 'a' {
        Some(Token::RerollAdd)
    } else if a == 'm' && b == 'i' {
        Some(Token::Min)
    } else if a == 'm' && b == 'a' {
        Some(Token::Max)
    } else if a == 'd' && b == '%' {
        Some(Token::DicePercent)
    } else {
        None
    }
}

/// The token that the single character `c` spells, if it spells one.
pub open spec fn single_token(c: char) -> Option<Token<Seq<char>>> {
    if c == '+' {
        Some(Token::Plus)
    } else if c == '-' {
        Some(Token::Minus)
    } else if c == '*' {
        Some(Token::Star)
    } else if c == '/' {
        Some(Token::Slash)
    } else if c == '%' {
        Some(Token::Percent)
    } else if c == '>' {
        Some(Token::Greater)
    } else if c == '<' {
        Some(Token::Less)
    } else if c == '(' {
        Some(Token::LParen)
    } else if c == ')' {
        Some(Token::RParen)
    } else if c == '{' {
        Some(Token::SetStart)
    } else if c == '}' {
        Some(Token::SetEnd)
    } else if c == '[' {
        Some(Token::AnnotationStart)
    } else if c == ']' {
        Some(Token::AnnotationEnd)
    } else if c == ',' {
        Some(Token::Comma)
    } else if c == 'd' {
        Some(Token::Dice)
    } else if c == 'k' {
        Some(Token::Keep)
    } else if c == 'p' {
        Some(Token::Drop)
    } else if c == 'e' || c == '!' {
        Some(Token::Explode)
    } else if c == 'h' {
        Some(Token::SelectorHigh)
    } else if c == 'l' {
        Some(Token::SelectorLow)
    } else {
        None
    }
}

/// How a scan for a numeric literal ends.
pub enum NumberScan {
    /// A `.` at this position is not followed by a digit.
    BadDot(int),
    /// The literal ends before this position; the flag says whether it held a
    /// digit.
    End(int, bool),
}

/// Scans a numeric literal from `i`: digits, and at most one `.` that must be
/// followed by a digit.
pub open spec fn scan_number(chars: Seq<char>, i: int, seen_digit: bool, seen_dot: bool) -> NumberScan
    decreases chars.len() - i,
{
    if i < 0 || i >= chars.len() {
        NumberScan::End(i, seen_digit)
    } else if spec_is_digit(chars[i]) {
        scan_number(chars, i + 1, true, seen_dot)
    } else if chars[i] == '.' && !seen_dot {
        if !spec_is_digit(peek_at(chars, i + 1)) {
            NumberScan::BadDot(i)
        } else {
            scan_number(chars, i + 1, seen_digit, true)
        }
    } else {
        NumberScan::End(i, seen_digit)
    }
}

/// How many of the characters of `s` from its start are digits.
pub open spec fn leading_digits(s: Seq<char>) -> nat
    decreases s.len(),
{
    if s.len() > 0 && spec_is_digit(s[0]) {
        1 + leading_digits(s.drop_first())
    } else {
        0
    }
}

/// Whether the decimal literal `text` denotes a number too large for a finite
/// `f64`: its integer part reaches [`F64_LIMIT`].
pub open spec fn too_large(text: Seq<char>) -> bool {
    digits_value(text.take(leading_digits(text) as int)) >= digits_value(F64_LIMIT@)
}

/// Whether the literal `chars[from..to]` is [`too_large`].
fn literal_too_large(chars: &Vec<char>, from: usize, to: usize) -> (r: bool)
    requires
        from <= to <= chars.len(),
    ensures
        r == too_large(chars@.subrange(from as int, to as int)),
{
    let ghost text = chars@.subrange(from as int, to as int);
    // The integer part: the digits at the start of the literal.
    let mut k = from;
    while k < to && is_digit(chars[k])
        invariant
            from <= k <= to <= chars.len(),
            text == chars@.subrange(from as int, to as int),
            all_digits(chars@.subrange(from as int, k as int)),
            leading_digits(text) == (k - from) + leading_digits(chars@.subrange(k as int, to as int)),
        decreases to - k,
    {
        proof {
            assert(chars@.subrange(k as int, to as int).drop_first() =~= chars@.subrange(
                k + 1,
                to as int,
            ));
            assert(chars@.subrange(from as int, k + 1) =~= chars@.subrange(from as int, k as int).push(
                chars@[k as int],
            ));
        }
        k += 1;
    }
    proof {
        assert(text.take(leading_digits(text) as int) =~= chars@.subrange(from as int, k as int));
    }
    // Leading zeros do not change the value.
    let mut z = from;
    while z < k && chars[z] == '0'
        invariant
            from <= z <= k <= to <= chars.len(),
            all_digits(chars@.subrange(from as int, k as int)),
            digits_value(chars@.subrange(z as int, k as int)) == digits_value(
                chars@.subrange(from as int, k as int),
            ),
        decreases k - z,
    {
        proof {
            crate::text::lemma_leading_zero(chars@.subrange(z as int, k as int));
            assert(chars@.subrange(z as int, k as int).drop_first() =~= chars@.subrange(
                z + 1,
                k as int,
            ));
        }
        z += 1;
    }
    let limit = chars_of(F64_LIMIT);
    proof {
        reveal_strlit(
            "179769313486231580793728971405303415079934132710037826936173778980444968292764750946649017977587207096330286416692887910946555547851940402630657488671505820681908902000708383676273854845817711531764475730270069855571366959622842914819860834936475292719074168444365510704342711559699508093042880177904174497792",
        );
        assert(all_digits(limit@));
        assert(limit@.len() > 0 && limit@[0] != '0');
        assert forall|i: int| z <= i < k implies spec_is_digit(#[trigger] chars@[i]) by {
            assert(chars@.subrange(from as int, k as int)[i - from] == chars@[i]);
        }
        assert(all_digits(chars@.subrange(z as int, k as int)));
        assert(z < k ==> chars@.subrange(z as int, k as int)[0] != '0');
    }
    let len = k - z;
    if len != limit.len() {
        proof {
            lemma_compare_digits(chars@.subrange(z as int, k as int), limit@);
        }
        return len > limit.len();
    }
    let mut i: usize = 0;
    while i < len && chars[z + i] == limit[i]
        invariant
            i <= len == limit.len(),
            z + len == k <= chars.len(),
            forall|j: int| 0 <= j < i ==> chars@[z + j] == limit@[j],
        decreases len - i,
    {
        i += 1;
    }
    proof {
        let a = chars@.subrange(z as int, k as int);
        if i == len {
            assert(a =~= limit@);
        } else {
            assert forall|j: int| 0 <= j < i implies a[j] == limit@[j] by {
                assert(a[j] == chars@[z + j]);
            }
            crate::text::lemma_lex_digits(a, limit@, i as int);
            crate::text::lemma_lex_digits(limit@, a, i as int);
        }
    }
    i == len || chars[z + i] > limit[i]
}

/// The characters `chars[from..to]` without the white space at either end.
fn trimmed(chars: &Vec<char>, from: usize, to: usize) -> (s: String)
    requires
        from <= to <= chars.len(),
    ensures
        s@ == trim(chars@.subrange(from as int, to as int)),
{
    let mut a = from;
    while a < to && is_whitespace(chars[a])
        invariant
            from <= a <= to <= chars.len(),
            trim_start(chars@.subrange(from as int, to as int)) == trim_start(
                chars@.subrange(a as int, to as int),
            ),
        decreases to - a,
    {
        proof {
            assert(chars@.subrange(a as int, to as int).drop_first() =~= chars@.subrange(
                a + 1,
                to as int,
            ));
        }
        a += 1;
    }
    proof {
        assert(trim_start(chars@.subrange(a as int, to as int)) == chars@.subrange(a as int, to as int));
    }
    let mut b = to;
    while b > a && is_whitespace(chars[b - 1])
        invariant
            from <= a <= b <= to <= chars.len(),
            trim_end(chars@.subrange(a as int, to as int)) == trim_end(
                chars@.subrange(a as int, b as int),
            ),
        decreases b - a,
    {
        proof {
            assert(chars@.subrange(a as int, b as int).drop_last() =~= chars@.subrange(
                a as int,
                b - 1,
            ));
        }
        b -= 1;
    }
    string_of(chars, a, b)
}

/// The outcome of lexing one token: the token or the lexer's error message,
/// then the position and the annotation mode after it.
pub type LexOutcome = (Result<Token<Seq<char>>, Seq<char>>, int, bool);

/// Lexes the numeric literal that starts at `start`.
pub open spec fn lex_number(chars: Seq<char>, start: int) -> LexOutcome {
    match scan_number(chars, start, false, false) {
        NumberScan::BadDot(at) => (
            Err("Invalid decimal literal starting at position "@ + decimal(start as nat)),
            at,
            false,
        ),
        NumberScan::End(end, seen_digit) => if !seen_digit {
            (Err("Number literal missing digits at position "@ + decimal(start as nat)), end, false)
        } else if too_large(chars.subrange(start, end)) {
            (
                Err("Number literal '"@ + chars.subrange(start, end)
                    + "' is too large to represent"@),
                end,
                false,
            )
        } else {
            (Ok(Token::Number(chars.subrange(start, end))), end, false)
        },
    }
}

/// The next token of `chars` from `pos`, where `annotation_mode` says that an
/// annotation was just opened with `[`.
///
/// Outside an annotation, white space is skipped; two-character operators win
/// over one-character ones. Inside one, everything up to the next `]` is the
/// annotation's text, trimmed.
pub open spec fn lex_next(chars: Seq<char>, pos: int, annotation_mode: bool) -> LexOutcome {
    let p = if annotation_mode {
        pos
    } else {
        skip_whitespace(chars, pos)
    };
    if p >= chars.len() {
        (Ok(Token::Eof), p, annotation_mode)
    } else if annotation_mode {
        let end = annotation_end(chars, p);
        if end >= chars.len() {
            (Err("Unterminated annotation; missing closing ']'"@), end, true)
        } else {
            (Ok(Token::AnnotationText(trim(chars.subrange(p, end)))), end, false)
        }
    } else {
        let c = chars[p];
        let next = peek_at(chars, p + 1);
        match pair_token(c, next) {
            Some(t) => (Ok(t), p + 2, false),
            None => match single_token(c) {
                Some(t) => (Ok(t), p + 1, c == '['),
                None => if c == '=' {
                    (
                        Err("Unexpected '=' at position "@ + decimal(p as nat)
                            + ". Did you mean '=='?"@),
                        p,
                        false,
                    )
                } else if spec_is_digit(c) || (c == '.' && spec_is_digit(next)) {
                    lex_number(chars, p)
                } else {
                    (
                        Err("Unexpected character '"@ + seq![c] + "' at position "@ + decimal(
                            p as nat,
                        )),
                        p,
                        false,
                    )
                },
            },
        }
    }
}

proof fn lemma_skip_whitespace_bounds(chars: Seq<char>, pos: int)
    requires
        0 <= pos <= chars.len(),
    ensures
        pos <= skip_whitespace(chars, pos) <= chars.len(),
        skip_whitespace(chars, pos) < chars.len() ==> !spec_is_whitespace(
            chars[skip_whitespace(chars, pos)],
        ),
    decreases chars.len() - pos,
{
    if pos < chars.len() && spec_is_whitespace(chars[pos]) {
        lemma_skip_whitespace_bounds(chars, pos + 1);
    }
}

proof fn lemma_annotation_end_bounds(chars: Seq<char>, pos: int)
    requires
        0 <= pos <= chars.len(),
    ensures
        pos <= annotation_end(chars, pos) <= chars.len(),
        annotation_end(chars, pos) < chars.len() ==> chars[annotation_end(chars, pos)] == ']',
    decreases chars.len() - pos,
{
    if pos < chars.len() && chars[pos] != ']' {
        lemma_annotation_end_bounds(chars, pos + 1);
    }
}

proof fn lemma_scan_number_bounds(chars: Seq<char>, i: int, seen_digit: bool, seen_dot: bool)
    requires
        0 <= i <= chars.len(),
    ensures
        match scan_number(chars, i, seen_digit, seen_dot) {
            NumberScan::BadDot(at) => i <= at < chars.len(),
            NumberScan::End(end, d) => i <= end <= chars.len() && (end == i ==> d == seen_digit),
        },
    decreases chars.len() - i,
{
    if i < chars.len() {
        if spec_is_digit(chars[i]) {
            lemma_scan_number_bounds(chars, i + 1, true, seen_dot);
        } else if chars[i] == '.' && !seen_dot && spec_is_digit(peek_at(chars, i + 1)) {
            lemma_scan_number_bounds(chars, i + 1, seen_digit, true);
        }
    }
}

/// Lexing always moves on: each step either reaches the end (`Eof`),
/// reports an error, or reads a token and leaves the position past it,
/// never beyond the end. Only the text of an empty annotation (`[]`) is read
/// without moving, and it closes the annotation.
pub proof fn lemma_lex_progress(chars: Seq<char>, pos: int, annotation_mode: bool)
    requires
        0 <= pos <= chars.len(),
    ensures
        ({
            let (o, p, m) = lex_next(chars, pos, annotation_mode);
            &&& pos <= p <= chars.len()
            &&& (o == Ok::<Token<Seq<char>>, Seq<char>>(Token::Eof) || o is Err || p > pos || (
            annotation_mode && !m))
        }),
{
    lemma_skip_whitespace_bounds(chars, pos);
    let p = if annotation_mode {
        pos
    } else {
        skip_whitespace(chars, pos)
    };
    if p < chars.len() {
        if annotation_mode {
            lemma_annotation_end_bounds(chars, p);
        } else {
            let c = chars[p];
            let next = peek_at(chars, p + 1);
            if pair_token(c, next) is Some {
                assert(next != '\0');
                assert(p + 1 < chars.len());
            } else if single_token(c) is None && c != '=' && (spec_is_digit(c) || (c == '.'
                && spec_is_digit(next))) {
                lemma_scan_number_bounds(chars, p, false, false);
                if spec_is_digit(c) {
                    assert(scan_number(chars, p, false, false) == scan_number(chars, p + 1, true, false));
                    lemma_scan_number_bounds(chars, p + 1, true, false);
                } else {
                    assert(scan_number(chars, p, false, false) == scan_number(chars, p + 1, false, true));
                    lemma_scan_number_bounds(chars, p + 1, false, true);
                }
            }
        }
    }
}

/// The end of the input is final: once a step gives `Eof`, the next step,
/// from where it left off, gives `Eof` again without moving.
pub proof fn lemma_eof_is_final(chars: Seq<char>, pos: int, annotation_mode: bool)
    requires
        0 <= pos <= chars.len(),
        lex_next(chars, pos, annotation_mode).0 == Ok::<Token<Seq<char>>, Seq<char>>(Token::Eof),
    ensures
        ({
            let (_, p, m) = lex_next(chars, pos, annotation_mode);
            lex_next(chars, p, m) == (Ok::<Token<Seq<char>>, Seq<char>>(Token::Eof), p, m)
        }),
{
    lemma_skip_whitespace_bounds(chars, pos);
    let (o, p, m) = lex_next(chars, pos, annotation_mode);
    lemma_lex_progress(chars, pos, annotation_mode);
    if p < chars.len() {
        // A token other than `Eof` would have been read.
        let q = if annotation_mode {
            pos
        } else {
            skip_whitespace(chars, pos)
        };
        assert(q < chars.len());
        if !annotation_mode {
            let c = chars[q];
            let next = peek_at(chars, q + 1);
            if pair_token(c, next) is None && single_token(c) is None && c != '=' && (spec_is_digit(c)
                || (c == '.' && spec_is_digit(next))) {
                assert(lex_number(chars, q).0 != Ok::<Token<Seq<char>>, Seq<char>>(Token::Eof));
            }
        }
        assert(false);
    }
    assert(p == chars.len());
    assert(skip_whitespace(chars, p) == p);
}

/// White space outside an annotation does not change what is read: a step
/// from a white-space character reads what a step from the next character
/// reads.
pub proof fn lemma_whitespace_is_skipped(chars: Seq<char>, pos: int)
    requires
        0 <= pos < chars.len(),
        spec_is_whitespace(chars[pos]),
    ensures
        lex_next(chars, pos, false) == lex_next(chars, pos + 1, false),
{
}

/// `r` is what `o` describes: the same token, or a lexer error with the same
/// message.
pub open spec fn is_outcome(
    r: Result<Token<String>, RollatoriumError>,
    o: Result<Token<Seq<char>>, Seq<char>>,
) -> bool {
    match o {
        Ok(t) => r matches Ok(tok) && tok@ == t,
        Err(m) => r matches Err(RollatoriumError::Lexer(s)) && s@ == m,
    }
}

/// The state of a [`Lexer`]: the input's characters, the position of the next
/// one to read, and whether an annotation is open.
pub struct LexerState {
    pub chars: Seq<char>,
    pub pos: int,
    pub annotation_mode: bool,
}

/// Splits a dice expression into tokens, one [`Lexer::next_token`] call at a
/// time.
pub struct Lexer {
    chars: Vec<char>,
    pos: usize,
    annotation_mode: bool,
}

impl View for Lexer {
    type V = LexerState;

    closed spec fn view(&self) -> LexerState {
        LexerState { chars: self.chars@, pos: self.pos as int, annotation_mode: self.annotation_mode }
    }
}

impl Lexer {
    /// The position never passes the end of the input.
    #[verifier::type_invariant]
    closed spec fn inv(&self) -> bool {
        self.pos <= self.chars.len()
    }

    /// A lexer at the start of `input`, outside any annotation.
    pub fn new(input: &str) -> (r: Lexer)
        ensures
            r@ == (LexerState { chars: input@, pos: 0, annotation_mode: false }),
    {
        Lexer { chars: chars_of(input), pos: 0, annotation_mode: false }
    }

    fn is_at_end(&self) -> (r: bool)
        ensures
            r == (self@.pos >= self@.chars.len()),
    {
        self.pos >= self.chars.len()
    }

    fn peek(&self) -> (c: char)
        ensures
            c == peek_at(self@.chars, self@.pos),
    {
        self.peek_offset(0)
    }

    fn peek_offset(&self, offset: usize) -> (c: char)
        ensures
            c == peek_at(self@.chars, self@.pos + offset),
    {
        proof {
            use_type_invariant(self);
        }
        if offset < self.chars.len() - self.pos {
            self.chars[self.pos + offset]
        } else {
            '\0'
        }
    }

    fn advance(&mut self)
        ensures
            final(self)@.chars == old(self)@.chars,
            final(self)@.annotation_mode == old(self)@.annotation_mode,
            final(self)@.pos == if old(self)@.pos < old(self)@.chars.len() {
                old(self)@.pos + 1
            } else {
                old(self)@.pos
            },
    {
        if self.pos < self.chars.len() {
            self.pos = self.pos + 1;
        }
    }

    fn advance_by(&mut self, count: usize)
        ensures
            final(self)@.chars == old(self)@.chars,
            final(self)@.annotation_mode == old(self)@.annotation_mode,
            final(self)@.pos == if old(self)@.pos + count <= old(self)@.chars.len() {
                old(self)@.pos + count
            } else {
                old(self)@.chars.len() as int
            },
    {
        proof {
            use_type_invariant(&*self);
        }
        let mut i: usize = 0;
        while i < count
            invariant
                i <= count,
                self@.chars == old(self)@.chars,
                self@.annotation_mode == old(self)@.annotation_mode,
                self@.pos == if old(self)@.pos + i <= old(self)@.chars.len() {
                    old(self)@.pos + i
                } else {
                    old(self)@.chars.len() as int
                },
            decreases count - i,
        {
            self.advance();
            i += 1;
        }
    }

    fn skip_ws(&mut self)
        ensures
            final(self)@.chars == old(self)@.chars,
            final(self)@.annotation_mode == old(self)@.annotation_mode,
            final(self)@.pos == skip_whitespace(old(self)@.chars, old(self)@.pos),
    {
        proof {
            use_type_invariant(&*self);
        }
        while !self.is_at_end() && is_whitespace(self.peek())
            invariant
                self@.chars == old(self)@.chars,
                self@.annotation_mode == old(self)@.annotation_mode,
                0 <= self@.pos <= self@.chars.len(),
                skip_whitespace(self@.chars, self@.pos) == skip_whitespace(
                    old(self)@.chars,
                    old(self)@.pos,
                ),
            decreases self@.chars.len() - self@.pos,
        {
            self.advance();
        }
    }

    /// Whether the next two characters are `first` and `second`.
    fn starts_with(&self, first: char, second: char) -> (r: bool)
        ensures
            r == (peek_at(self@.chars, self@.pos) == first && peek_at(self@.chars, self@.pos + 1)
                == second),
    {
        self.peek_offset(0) == first && self.peek_offset(1) == second
    }

    fn number(&mut self) -> (r: Result<Token<String>, RollatoriumError>)
        requires
            !old(self)@.annotation_mode,
        ensures
            ({
                let (o, p, m) = lex_number(old(self)@.chars, old(self)@.pos);
                &&& is_outcome(r, o)
                &&& final(self)@ == LexerState { chars: old(self)@.chars, pos: p, annotation_mode: m }
            }),
    {
        proof {
            use_type_invariant(&*self);
        }
        let start = self.pos;
        let mut seen_digit = false;
        let mut seen_dot = false;
        while !self.is_at_end()
            invariant
                self@.chars == old(self)@.chars,
                !self@.annotation_mode,
                start == old(self)@.pos,
                start <= self@.pos <= self@.chars.len(),
                scan_number(self@.chars, start as int, false, false) == scan_number(
                    self@.chars,
                    self@.pos,
                    seen_digit,
                    seen_dot,
                ),
            ensures
                self@.chars == old(self)@.chars,
                !self@.annotation_mode,
                start <= self@.pos <= self@.chars.len(),
                scan_number(self@.chars, start as int, false, false) == NumberScan::End(
                    self@.pos,
                    seen_digit,
                ),
            decreases self@.chars.len() - self@.pos,
        {
            let c = self.peek();
            if is_digit(c) {
                seen_digit = true;
                self.advance();
            } else if c == '.' && !seen_dot {
                let next = self.peek_offset(1);
                if !is_digit(next) {
                    let mut msg = owned("Invalid decimal literal starting at position ");
                    push_decimal(&mut msg, start);
                    return Err(RollatoriumError::Lexer(msg));
                }
                seen_dot = true;
                self.advance();
            } else {
                break;
            }
        }
        if !seen_digit {
            let mut msg = owned("Number literal missing digits at position ");
            push_decimal(&mut msg, start);
            return Err(RollatoriumError::Lexer(msg));
        }
        if literal_too_large(&self.chars, start, self.pos) {
            let mut msg = owned("Number literal '");
            push_chars(&mut msg, &self.chars, start, self.pos);
            msg.append("' is too large to represent");
            return Err(RollatoriumError::Lexer(msg));
        }
        Ok(Token::Number(string_of(&self.chars, start, self.pos)))
    }

    /// Reads the next token, or reports why the input cannot be lexed.
    ///
    /// The token, the position after it and the annotation mode after it are
    /// those that [`lex_next`] gives for the lexer's state before the call; an
    /// error is always a [`RollatoriumError::Lexer`].
    pub fn next_token(&mut self) -> (r: Result<Token<String>, RollatoriumError>)
        ensures
            ({
                let (o, p, m) = lex_next(old(self)@.chars, old(self)@.pos, old(self)@.annotation_mode);
                &&& is_outcome(r, o)
                &&& final(self)@ == LexerState { chars: old(self)@.chars, pos: p, annotation_mode: m }
            }),
    {
        proof {
            use_type_invariant(&*self);
        }
        if !self.annotation_mode {
            self.skip_ws();
        }
        if self.is_at_end() {
            return Ok(Token::Eof);
        }
        if self.annotation_mode {
            let start = self.pos;
            while !self.is_at_end()
                invariant
                    self@.chars == old(self)@.chars,
                    self@.annotation_mode,
                    start <= self@.pos <= self@.chars.len(),
                    annotation_end(self@.chars, start as int) == annotation_end(
                        self@.chars,
                        self@.pos,
                    ),
                ensures
                    self@.chars == old(self)@.chars,
                    self@.annotation_mode,
                    start <= self@.pos <= self@.chars.len(),
                    annotation_end(self@.chars, start as int) == self@.pos,
                decreases self@.chars.len() - self@.pos,
            {
                let c = self.peek();
                if c == ']' {
                    break;
                }
                self.advance();
            }
            if self.is_at_end() {
                return Err(
                    RollatoriumError::Lexer(owned("Unterminated annotation; missing closing ']'")),
                );
            }
            let text = trimmed(&self.chars, start, self.pos);
            self.annotation_mode = false;
            return Ok(Token::AnnotationText(text));
        }
        if self.starts_with('/', '/') {
            self.advance_by(2);
            return Ok(Token::DoubleSlash);
        }
        if self.starts_with('=', '=') {
            self.advance_by(2);
            return Ok(Token::EqualEqual);
        }
        if self.starts_with('!', '=') {
            self.advance_by(2);
            return Ok(Token::NotEqual);
        }
        if self.starts_with('>', '=') {
            self.advance_by(2);
            return Ok(Token::GreaterEqual);
        }
        if self.starts_with('<', '=') {
            self.advance_by(2);
            return Ok(Token::LessEqual);
        }
        if self.starts_with('r', 'r') {
            self.advance_by(2);
            return Ok(Token::Reroll);
        }
        if self.starts_with('r', 'o') {
            self.advance_by(2);
            return Ok(Token::RerollOnce);
        }
        if self.starts_with('r', 'a') {
            self.advance_by(2);
            return Ok(Token::RerollAdd);
        }
        if self.starts_with('m', 'i') {
            self.advance_by(2);
            return Ok(Token::Min);
        }
        if self.starts_with('m', 'a') {
            self.advance_by(2);
            return Ok(Token::Max);
        }
        if self.starts_with('d', '%') {
            self.advance_by(2);
            return Ok(Token::DicePercent);
        }
        let c = self.peek();
        match c {
            '+' => {
                self.advance();
                Ok(Token::Plus)
            },
            '-' => {
                self.advance();
                Ok(Token::Minus)
            },
            '*' => {
                self.advance();
                Ok(Token::Star)
            },
            '/' => {
                self.advance();
                Ok(Token::Slash)
            },
            '%' => {
                self.advance();
                Ok(Token::Percent)
            },
            '>' => {
                self.advance();
                Ok(Token::Greater)
            },
            '<' => {
                self.advance();
                Ok(Token::Less)
            },
            '(' => {
                self.advance();
                Ok(Token::LParen)
            },
            ')' => {
                self.advance();
                Ok(Token::RParen)
            },
            '{' => {
                self.advance();
                Ok(Token::SetStart)
            },
            '}' => {
                self.advance();
                Ok(Token::SetEnd)
            },
            '[' => {
                self.advance();
                self.annotation_mode = true;
                Ok(Token::AnnotationStart)
            },
            ']' => {
                self.advance();
                Ok(Token::AnnotationEnd)
            },
            ',' => {
                self.advance();
                Ok(Token::Comma)
            },
            'd' => {
                self.advance();
                Ok(Token::Dice)
            },
            'k' => {
                self.advance();
                Ok(Token::Keep)
            },
            'p' => {
                self.advance();
                Ok(Token::Drop)
            },
            'e' => {
                self.advance();
                Ok(Token::Explode)
            },
            '!' => {
                self.advance();
                Ok(Token::Explode)
            },
            'h' => {
                self.advance();
                Ok(Token::SelectorHigh)
            },
            'l' => {
                self.advance();
                Ok(Token::SelectorLow)
            },
            '=' => {
                let mut msg = owned("Unexpected '=' at position ");
                push_decimal(&mut msg, self.pos);
                msg.append(". Did you mean '=='?");
                proof {
                    assert(msg@ =~= "Unexpected '=' at position "@ + decimal(self@.pos as nat)
                        + ". Did you mean '=='?"@);
                }
                Err(RollatoriumError::Lexer(msg))
            },
            _ => {
                if is_digit(c) || (c == '.' && is_digit(self.peek_offset(1))) {
                    self.number()
                } else {
                    let mut msg = owned("Unexpected character '");
                    msg.push(c);
                    msg.append("' at position ");
                    push_decimal(&mut msg, self.pos);
                    proof {
                        assert(msg@ =~= "Unexpected character '"@ + seq![c] + "' at position "@
                            + decimal(self@.pos as nat));
                    }
                    Err(RollatoriumError::Lexer(msg))
                }
            },
        }
    }
}

} // verus!

verus! {

/// Lexing `chars` from `pos` in `annotation_mode`, one of the first `k` reads
/// gives `Eof` or an error.
pub open spec fn ends_within(chars: Seq<char>, pos: int, annotation_mode: bool, k: nat) -> bool
    decreases k,
{
    k > 0 && {
        let (o, p, m) = lex_next(chars, pos, annotation_mode);
        ||| o == Ok::<Token<Seq<char>>, Seq<char>>(Token::Eof)
        ||| o is Err
        ||| ends_within(chars, p, m, (k - 1) as nat)
    }
}

proof fn lemma_ends_within(chars: Seq<char>, pos: int, annotation_mode: bool, k: nat)
    requires
        0 <= pos <= chars.len(),
        k >= 2 * (chars.len() - pos) + 1 || (!annotation_mode && pos < chars.len() && chars[pos]
            == ']' && k >= 2 * (chars.len() - pos)),
    ensures
        ends_within(chars, pos, annotation_mode, k),
    decreases k,
{
    let (o, p, m) = lex_next(chars, pos, annotation_mode);
    lemma_lex_progress(chars, pos, annotation_mode);
    lemma_skip_whitespace_bounds(chars, pos);
    if o == Ok::<Token<Seq<char>>, Seq<char>>(Token::Eof) || o is Err {
        assert(k > 0);
    } else if annotation_mode {
        // The annotation's text ends before a `]`.
        lemma_annotation_end_bounds(chars, pos);
        assert(p == annotation_end(chars, pos) && !m);
        assert(p < chars.len() && chars[p] == ']');
        lemma_ends_within(chars, p, m, (k - 1) as nat);
    } else if k >= 2 * (chars.len() - pos) + 1 {
        assert(p > pos);
        lemma_ends_within(chars, p, m, (k - 1) as nat);
    } else {
        // A `]` is read on its own.
        assert(!spec_is_whitespace(chars[pos]));
        assert(skip_whitespace(chars, pos) == pos);
        assert(p == pos + 1 && !m);
        lemma_ends_within(chars, p, m, (k - 1) as nat);
    }
}

/// Lexing a string of `n` characters from its start, one of the first
/// `2n + 1` reads gives `Eof` or an error: each other token consumes a
/// character, save the text of an annotation, which only follows its `[`.
/// (After `Eof` every read gives `Eof` again: [`lemma_eof_is_final`].)
pub proof fn lemma_lexing_ends(chars: Seq<char>)
    ensures
        ends_within(chars, 0, false, (2 * chars.len() + 1) as nat),
{
    lemma_ends_within(chars, 0, false, (2 * chars.len() + 1) as nat);
}

} // verus!

verus! {

/// The characters with the Unicode `White_Space` property, one by one: tab,
/// line feed, line tabulation, form feed, carriage return, space, next line,
/// no-break space, ogham space mark, the spaces U+2000 to U+200A, line
/// separator, paragraph separator, narrow no-break space, medium
/// mathematical space and ideographic space.
pub open spec fn unicode_white_space(c: char) -> bool {
    ||| c == '\t'
    ||| c == '\n'
    ||| c == '\u{b}'
    ||| c == '\u{c}'
    ||| c == '\r'
    ||| c == ' '
    ||| c == '\u{85}'
    ||| c == '\u{a0}'
    ||| c == '\u{1680}'
    ||| ('\u{2000}' <= c && c <= '\u{200a}')
    ||| c == '\u{2028}'
    ||| c == '\u{2029}'
    ||| c == '\u{202f}'
    ||| c == '\u{205f}'
    ||| c == '\u{3000}'
}

/// Outside an annotation, every Unicode white-space character (line breaks
/// and carriage returns among them) is skipped: a read from it reads what a
/// read from the next character reads, so `4d6\n` lexes as `4d6`.
pub proof fn lemma_unicode_white_space_is_skipped(chars: Seq<char>, pos: int)
    requires
        0 <= pos < chars.len(),
        unicode_white_space(chars[pos]),
    ensures
        lex_next(chars, pos, false) == lex_next(chars, pos + 1, false),
{
    lemma_whitespace_is_skipped(chars, pos);
}

/// No other character is skipped: outside an annotation, a read from a
/// character without the `White_Space` property starts at that character.
pub proof fn lemma_only_white_space_is_skipped(chars: Seq<char>, pos: int)
    requires
        0 <= pos < chars.len(),
        !unicode_white_space(chars[pos]),
    ensures
        skip_whitespace(chars, pos) == pos,
{
}

} // verus!

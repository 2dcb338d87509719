//! The scanner: turns a character sequence into lexical tokens.
//!
//! `spec_next_token` is the mathematical statement of one scanning step and
//! `spec_tokenize` of the whole run; `Tokenizer::next_token` and
//! `tokenize_all` are the verified executable forms.

use vstd::prelude::*;

use crate::token::{dec_digits, digit_char, Token, TokenView};
use crate::InterpError;

verus! {

/// Whitespace skipped between tokens: space, tab, carriage return, newline.
pub open spec fn is_space_char(c: char) -> bool {
    c == ' ' || c == '\t' || c == '\r' || c == '\n'
}

/// The five single-character operators.
pub open spec fn is_operator_char(c: char) -> bool {
    c == '+' || c == '-' || c == '*' || c == '/' || c == '='
}

/// An ASCII decimal digit.
pub open spec fn is_digit_char(c: char) -> bool {
    '0' <= c && c <= '9'
}

/// True when `c` is alphabetic, exactly as `char::is_alphabetic` decides it.
/// Identifiers are maximal runs of alphabetic characters. The Unicode table
/// behind that decision is not restated here: the name stands for it, and
/// verified code learns which characters are alphabetic only by calling
/// `char::is_alphabetic`.
pub uninterp spec fn is_alphabetic_char(c: char) -> bool;

/// Relies on char::is_alphabetic: whether a character is alphabetic is a
/// function of the character alone.
pub assume_specification[ char::is_alphabetic ](c: char) -> (r: bool)
    ensures
        r == is_alphabetic_char(c),
;

/// The numeric value of a decimal digit character.
pub open spec fn digit_of(c: char) -> int {
    c as u32 - '0' as u32
}

/// The length of the maximal digit run starting at `i`.
pub open spec fn digit_run_len(s: Seq<char>, i: int) -> nat
    decreases s.len() - i,
{
    if 0 <= i && i < s.len() && is_digit_char(s[i]) {
        (1 + digit_run_len(s, i + 1)) as nat
    } else {
        0
    }
}

/// The length of the maximal alphabetic run starting at `i`.
pub open spec fn alphabetic_run_len(s: Seq<char>, i: int) -> nat
    decreases s.len() - i,
{
    if 0 <= i && i < s.len() && is_alphabetic_char(s[i]) {
        (1 + alphabetic_run_len(s, i + 1)) as nat
    } else {
        0
    }
}

/// The base-10 value of the digit characters `s[i..j]`.
pub open spec fn digits_value(s: Seq<char>, i: int, j: int) -> int
    decreases j - i,
{
    if i < j {
        digits_value(s, i, j - 1) * 10 + digit_of(s[j - 1])
    } else {
        0
    }
}


/// `digit_char` and `digit_of` are inverse, and every digit character is a
/// digit.
pub proof fn lemma_digit_char_of(d: nat)
    requires
        d < 10,
    ensures
        is_digit_char(digit_char(d)),
        digit_of(digit_char(d)) == d,
{
}

/// Every character of a decimal rendering is a digit.
pub proof fn lemma_dec_digits_are_digits(n: nat)
    ensures
        dec_digits(n).len() >= 1,
        forall|k: int| 0 <= k < dec_digits(n).len() ==> is_digit_char(#[trigger] dec_digits(n)[k]),
    decreases n,
{
    lemma_digit_char_of(n % 10);
    if n < 10 {
    } else {
        lemma_dec_digits_are_digits(n / 10);
    }
}

/// The value of a digit run depends only on the characters it covers.
pub proof fn lemma_digits_value_agree(s: Seq<char>, t: Seq<char>, d: int, i: int, j: int)
    requires
        i <= j,
        forall|k: int| i <= k < j ==> #[trigger] s[k] == t[k + d],
    ensures
        digits_value(s, i, j) == digits_value(t, i + d, j + d),
    decreases j - i,
{
    if i < j {
        lemma_digits_value_agree(s, t, d, i, j - 1);
    }
}

/// A digit run bounded by a non-digit (or the end of the text) has exactly
/// the length of that stretch.
pub proof fn lemma_digit_run_len_exact(s: Seq<char>, i: int, j: int)
    requires
        0 <= i <= j <= s.len(),
        forall|k: int| i <= k < j ==> is_digit_char(#[trigger] s[k]),
        j == s.len() || !is_digit_char(s[j]),
    ensures
        digit_run_len(s, i) == j - i,
    decreases j - i,
{
    if i < j {
        lemma_digit_run_len_exact(s, i + 1, j);
    }
}

/// Scanning the decimal rendering of `n` gives back `n`.
pub proof fn lemma_dec_digits_value(n: nat)
    ensures
        digits_value(dec_digits(n), 0, dec_digits(n).len() as int) == n,
    decreases n,
{
    lemma_digit_char_of(n % 10);
    if n < 10 {
        let s = dec_digits(n);
        assert(s == seq![digit_char(n)]);
        assert(digits_value(s, 0, 0) == 0);
        assert(digits_value(s, 0, 1) == digit_of(s[0]));
        assert(n % 10 == n);
    } else {
        lemma_dec_digits_value(n / 10);
        let p = dec_digits(n / 10);
        let s = dec_digits(n);
        assert(s == p.push(digit_char(n % 10)));
        assert(s.len() == p.len() + 1);
        assert(s[p.len() as int] == digit_char(n % 10));
        assert forall|k: int| 0 <= k < p.len() implies p[k] == s[k + 0] by {}
        lemma_digits_value_agree(p, s, 0, 0, p.len() as int);
        assert(digits_value(s, 0, p.len() as int) == n / 10);
        assert(digits_value(s, 0, s.len() as int) == digits_value(s, 0, p.len() as int) * 10
            + digit_of(s[p.len() as int]));
        assert((n / 10) * 10 + n % 10 == n) by {
            vstd::arithmetic::div_mod::lemma_fundamental_div_mod(n as int, 10);
        }
    }
}

/// One scanning step on a stretch of text that holds the decimal rendering
/// of `n`, bounded on the right by a non-digit or the end: the token is
/// `Int(n)` and the step consumes exactly the rendering.
pub proof fn lemma_scan_number_at(s: Seq<char>, i: int, n: nat)
    requires
        0 <= i,
        i + dec_digits(n).len() <= s.len(),
        forall|k: int| 0 <= k < dec_digits(n).len() ==> s[i + k] == #[trigger] dec_digits(n)[k],
        i + dec_digits(n).len() == s.len() || !is_digit_char(s[i + dec_digits(n).len()]),
        n <= i32::MAX,
    ensures
        spec_next_token(s, i) == Ok::<(TokenView, int), InterpError>(
            (TokenView::Int(n as i32), i + dec_digits(n).len()),
        ),
{
    let t = dec_digits(n);
    let j = i + t.len();
    lemma_dec_digits_are_digits(n);
    assert forall|k: int| i <= k < j implies is_digit_char(#[trigger] s[k]) by {
        assert(s[k] == t[k - i]);
    }
    lemma_digit_run_len_exact(s, i, j);
    assert forall|k: int| 0 <= k < t.len() implies t[k] == s[k + i] by {}
    lemma_digits_value_agree(t, s, i, 0, t.len() as int);
    lemma_dec_digits_value(n);
    assert(digits_value(s, i, j) == n);
}

/// One scanning step at position `i`: the token found there and the position
/// just past it. Whitespace is skipped with no token emitted; at or past the
/// end of the text the step yields `EndOfInput` without advancing, forever.
pub open spec fn spec_next_token(s: Seq<char>, i: int) -> Result<(TokenView, int), InterpError>
    decreases s.len() - i,
{
    if i < 0 || i >= s.len() {
        Ok((TokenView::EndOfInput, i))
    } else if is_space_char(s[i]) {
        spec_next_token(s, i + 1)
    } else if s[i] == '(' {
        Ok((TokenView::OpenParen, i + 1))
    } else if s[i] == ')' {
        Ok((TokenView::ClosedParen, i + 1))
    } else if is_operator_char(s[i]) {
        Ok((TokenView::Operator(s[i]), i + 1))
    } else if is_digit_char(s[i]) {
        let n = digit_run_len(s, i);
        let v = digits_value(s, i, i + n);
        if v <= i32::MAX {
            Ok((TokenView::Int(v as i32), i + n))
        } else {
            Err(InterpError::IntegerOverflow)
        }
    } else if is_alphabetic_char(s[i]) {
        let n = alphabetic_run_len(s, i);
        Ok((TokenView::Identifier(s.subrange(i, i + n)), i + n))
    } else {
        Err(InterpError::InvalidCharacter)
    }
}

pub proof fn lemma_digit_run_len_in_bounds(s: Seq<char>, i: int)
    requires
        0 <= i <= s.len(),
    ensures
        i + digit_run_len(s, i) <= s.len(),
    decreases s.len() - i,
{
    if i < s.len() && is_digit_char(s[i]) {
        lemma_digit_run_len_in_bounds(s, i + 1);
    }
}

pub proof fn lemma_alphabetic_run_len_in_bounds(s: Seq<char>, i: int)
    requires
        0 <= i <= s.len(),
    ensures
        i + alphabetic_run_len(s, i) <= s.len(),
    decreases s.len() - i,
{
    if i < s.len() && is_alphabetic_char(s[i]) {
        lemma_alphabetic_run_len_in_bounds(s, i + 1);
    }
}

/// A scanning step never moves backwards, never leaves the text, and always
/// advances unless it yields `EndOfInput`.
pub proof fn lemma_next_token_advances(s: Seq<char>, i: int)
    requires
        0 <= i,
    ensures
        match spec_next_token(s, i) {
            Ok((tok, j)) => i <= j && (!(tok is EndOfInput) ==> i < j <= s.len()),
            Err(_) => true,
        },
    decreases s.len() - i,
{
    if i < s.len() {
        if is_space_char(s[i]) {
            lemma_next_token_advances(s, i + 1);
        } else if is_digit_char(s[i]) {
            lemma_digit_run_len_in_bounds(s, i);
        } else if is_alphabetic_char(s[i]) {
            lemma_alphabetic_run_len_in_bounds(s, i);
        }
    }
}

/// The token sequence scanned from position `i` to the end of the text,
/// including the terminal `EndOfInput`, or the first scanning error.
pub open spec fn spec_tokenize_from(s: Seq<char>, i: int) -> Result<Seq<TokenView>, InterpError>
    decreases s.len() - i,
        via spec_tokenize_from_decreases
{
    match spec_next_token(s, i) {
        Err(e) => Err(e),
        Ok((tok, j)) => if tok is EndOfInput {
            Ok(seq![TokenView::EndOfInput])
        } else {
            match spec_tokenize_from(s, j) {
                Err(e) => Err(e),
                Ok(rest) => Ok(seq![tok] + rest),
            }
        },
    }
}

#[via_fn]
proof fn spec_tokenize_from_decreases(s: Seq<char>, i: int) {
    if 0 <= i {
        lemma_next_token_advances(s, i);
    }
}

/// The full scan of a text: every token in order, ending in `EndOfInput`, or
/// the first scanning error.
pub open spec fn spec_tokenize(s: Seq<char>) -> Result<Seq<TokenView>, InterpError> {
    spec_tokenize_from(s, 0)
}

/// A scanner over a text, holding only its reading position as state.
pub struct Tokenizer<'a> {
    input: &'a str,
    current_index: usize,
}

impl<'a> Tokenizer<'a> {
    /// The text being scanned.
    pub closed spec fn text(&self) -> Seq<char> {
        self.input@
    }

    /// The current reading position, in characters.
    pub closed spec fn cursor(&self) -> int {
        self.current_index as int
    }

    /// A scanner at the start of `input`.
    pub fn new(input: &'a str) -> (r: Tokenizer<'a>)
        ensures
            r.text() == input@,
            r.cursor() == 0,
    {
        Tokenizer { input, current_index: 0 }
    }

    /// True when the cursor stands on a whitespace character.
    fn space_at_cursor(&self) -> (r: bool)
        requires
            self.cursor() <= self.text().len(),
        ensures
            r == (self.cursor() < self.text().len() && is_space_char(
                self.text()[self.cursor()],
            )),
    {
        if self.current_index < self.input.unicode_len() {
            let c = self.input.get_char(self.current_index);
            c == ' ' || c == '\t' || c == '\r' || c == '\n'
        } else {
            false
        }
    }

    /// True when the cursor stands on a decimal digit.
    fn digit_at_cursor(&self) -> (r: bool)
        requires
            self.cursor() <= self.text().len(),
        ensures
            r == (self.cursor() < self.text().len() && is_digit_char(
                self.text()[self.cursor()],
            )),
    {
        if self.current_index < self.input.unicode_len() {
            let c = self.input.get_char(self.current_index);
            '0' <= c && c <= '9'
        } else {
            false
        }
    }

    /// True when the cursor stands on an alphabetic character.
    fn alphabetic_at_cursor(&self) -> (r: bool)
        requires
            self.cursor() <= self.text().len(),
        ensures
            r == (self.cursor() < self.text().len() && is_alphabetic_char(
                self.text()[self.cursor()],
            )),
    {
        if self.current_index < self.input.unicode_len() {
            let c = self.input.get_char(self.current_index);
            c.is_alphabetic()
        } else {
            false
        }
    }

    /// Scans the next token, advancing the cursor past it. After the end of
    /// the text every call returns `EndOfInput` without advancing.
    #[verifier::loop_isolation(false)]
    pub fn next_token(&mut self) -> (r: Result<Token, InterpError>)
        requires
            old(self).cursor() <= old(self).text().len(),
        ensures
            final(self).text() == old(self).text(),
            final(self).cursor() <= final(self).text().len(),
            match r {
                Ok(t) => spec_next_token(old(self).text(), old(self).cursor()) == Ok::<
                    (TokenView, int),
                    InterpError,
                >((t@, final(self).cursor())),
                Err(e) => spec_next_token(old(self).text(), old(self).cursor()) == Err::<
                    (TokenView, int),
                    InterpError,
                >(e),
            },
    {
        let ghost s = self.input@;
        let ghost c0 = self.cursor();
        let n = self.input.unicode_len();
        while self.space_at_cursor()
            invariant
                self.input@ == s,
                n == s.len(),
                self.current_index <= n,
                spec_next_token(s, c0) == spec_next_token(s, self.current_index as int),
            decreases n - self.current_index,
        {
            self.current_index = self.current_index + 1;
        }
        if self.current_index == n {
            return Ok(Token::EndOfInput);
        }
        let c = self.input.get_char(self.current_index);
        if c == '(' {
            self.current_index = self.current_index + 1;
            Ok(Token::OpenParen)
        } else if c == ')' {
            self.current_index = self.current_index + 1;
            Ok(Token::ClosedParen)
        } else if c == '+' || c == '-' || c == '*' || c == '/' || c == '=' {
            self.current_index = self.current_index + 1;
            Ok(Token::Operator(c))
        } else if '0' <= c && c <= '9' {
            self.scan_number()
        } else if c.is_alphabetic() {
            self.scan_identifier()
        } else {
            Err(InterpError::InvalidCharacter)
        }
    }

    /// Scans a maximal digit run as a base-10 integer; a run whose value does
    /// not fit in `i32` is an `IntegerOverflow`.
    #[verifier::loop_isolation(false)]
    fn scan_number(&mut self) -> (r: Result<Token, InterpError>)
        requires
            old(self).cursor() < old(self).text().len(),
            is_digit_char(old(self).text()[old(self).cursor()]),
        ensures
            final(self).text() == old(self).text(),
            final(self).cursor() <= final(self).text().len(),
            match r {
                Ok(t) => spec_next_token(old(self).text(), old(self).cursor()) == Ok::<
                    (TokenView, int),
                    InterpError,
                >((t@, final(self).cursor())),
                Err(e) => spec_next_token(old(self).text(), old(self).cursor()) == Err::<
                    (TokenView, int),
                    InterpError,
                >(e),
            },
    {
        let ghost s = self.input@;
        let start = self.current_index;
        let n = self.input.unicode_len();
        proof {
            lemma_digit_run_len_in_bounds(s, start as int);
        }
        while self.digit_at_cursor()
            invariant
                self.input@ == s,
                n == s.len(),
                start <= self.current_index <= n,
                forall|k: int| start <= k < self.current_index ==> is_digit_char(#[trigger] s[k]),
                digit_run_len(s, start as int) == (self.current_index - start) + digit_run_len(
                    s,
                    self.current_index as int,
                ),
            decreases n - self.current_index,
        {
            self.current_index = self.current_index + 1;
        }
        let run_end = self.current_index;
        proof {
            assert(digit_run_len(s, run_end as int) == 0);
            assert(digit_run_len(s, start as int) == run_end - start);
        }
        let mut k = start;
        let mut value: u64 = 0;
        while k < run_end
            invariant
                self.input@ == s,
                n == s.len(),
                start <= k <= run_end <= n,
                forall|t: int| start <= t < run_end ==> is_digit_char(#[trigger] s[t]),
                value == digits_value(s, start as int, k as int),
                value <= i32::MAX,
            decreases run_end - k,
        {
            let c = self.input.get_char(k);
            let d: u64 = (c as u32 - '0' as u32) as u64;
            value = value * 10 + d;
            k = k + 1;
            if value > i32::MAX as u64 {
                proof {
                    lemma_digits_value_nonneg(s, start as int, k as int, run_end as int);
                    lemma_digits_value_monotone(s, start as int, k as int, run_end as int);
                }
                return Err(InterpError::IntegerOverflow);
            }
        }
        Ok(Token::Int(value as i32))
    }

    /// Scans a maximal alphabetic run as an identifier.
    #[verifier::loop_isolation(false)]
    fn scan_identifier(&mut self) -> (r: Result<Token, InterpError>)
        requires
            old(self).cursor() < old(self).text().len(),
            is_alphabetic_char(old(self).text()[old(self).cursor()]),
            !is_space_char(old(self).text()[old(self).cursor()]),
            old(self).text()[old(self).cursor()] != '(',
            old(self).text()[old(self).cursor()] != ')',
            !is_operator_char(old(self).text()[old(self).cursor()]),
            !is_digit_char(old(self).text()[old(self).cursor()]),
        ensures
            final(self).text() == old(self).text(),
            final(self).cursor() <= final(self).text().len(),
            match r {
                Ok(t) => spec_next_token(old(self).text(), old(self).cursor()) == Ok::<
                    (TokenView, int),
                    InterpError,
                >((t@, final(self).cursor())),
                Err(e) => spec_next_token(old(self).text(), old(self).cursor()) == Err::<
                    (TokenView, int),
                    InterpError,
                >(e),
            },
    {
        let ghost s = self.input@;
        let start = self.current_index;
        let n = self.input.unicode_len();
        proof {
            lemma_alphabetic_run_len_in_bounds(s, start as int);
        }
        while self.alphabetic_at_cursor()
            invariant
                self.input@ == s,
                n == s.len(),
                start <= self.current_index <= n,
                alphabetic_run_len(s, start as int) == (self.current_index - start)
                    + alphabetic_run_len(s, self.current_index as int),
            decreases n - self.current_index,
        {
            self.current_index = self.current_index + 1;
        }
        let run_end = self.current_index;
        proof {
            assert(alphabetic_run_len(s, run_end as int) == 0);
            assert(alphabetic_run_len(s, start as int) == run_end - start);
        }
        let name = self.input.substring_char(start, run_end).to_owned();
        Ok(Token::Identifier(name))
    }
}

/// The value of a digit run is never negative.
proof fn lemma_digits_value_nonneg(s: Seq<char>, i: int, j: int, m: int)
    requires
        i <= j,
        forall|t: int| i <= t < m ==> is_digit_char(#[trigger] s[t]),
        j <= m,
    ensures
        digits_value(s, i, j) >= 0,
    decreases j - i,
{
    if i < j {
        lemma_digits_value_nonneg(s, i, j - 1, m);
    }
}

/// Reading more digits never makes the value smaller.
proof fn lemma_digits_value_monotone(s: Seq<char>, i: int, j: int, m: int)
    requires
        i <= j <= m,
        forall|t: int| i <= t < m ==> is_digit_char(#[trigger] s[t]),
    ensures
        digits_value(s, i, j) <= digits_value(s, i, m),
    decreases m - j,
{
    if j < m {
        lemma_digits_value_nonneg(s, i, m - 1, m);
        lemma_digits_value_monotone(s, i, j, m - 1);
    }
}

/// Scans the whole text: the ordered sequence of all its tokens, including
/// the terminal `EndOfInput`, or the first scanning error.
#[verifier::loop_isolation(false)]
pub fn tokenize_all(input: &str) -> (r: Result<Vec<Token>, InterpError>)
    ensures
        match r {
            Ok(tokens) => spec_tokenize(input@) == Ok::<Seq<TokenView>, InterpError>(
                tokens@.map_values(|t: Token| t@),
            ),
            Err(e) => spec_tokenize(input@) == Err::<Seq<TokenView>, InterpError>(e),
        },
{
    let ghost s = input@;
    let mut tokenizer = Tokenizer::new(input);
    let mut tokens: Vec<Token> = Vec::new();
    loop
        invariant
            tokenizer.text() == s,
            0 <= tokenizer.cursor() <= s.len(),
            match spec_tokenize_from(s, tokenizer.cursor()) {
                Ok(rest) => spec_tokenize(s) == Ok::<Seq<TokenView>, InterpError>(
                    tokens@.map_values(|t: Token| t@) + rest,
                ),
                Err(e) => spec_tokenize(s) == Err::<Seq<TokenView>, InterpError>(e),
            },
        decreases s.len() - tokenizer.cursor(),
    {
        let ghost cursor_before = tokenizer.cursor();
        match tokenizer.next_token() {
            Err(e) => {
                return Err(e);
            },
            Ok(t) => {
                proof {
                    lemma_next_token_advances(s, cursor_before);
                }
                let ghost previous = tokens@.map_values(|x: Token| x@);
                let is_end = matches!(t, Token::EndOfInput);
                let ghost tv = t@;
                tokens.push(t);
                proof {
                    assert(tokens@.map_values(|x: Token| x@) =~= previous.push(tv));
                }
                if is_end {
                    proof {
                        assert(previous.push(tv) =~= previous + seq![TokenView::EndOfInput]);
                    }
                    return Ok(tokens);
                }
                proof {
                    if spec_tokenize_from(s, tokenizer.cursor()) is Ok {
                        let rest = spec_tokenize_from(s, tokenizer.cursor())->Ok_0;
                        assert(previous + (seq![tv] + rest) =~= previous.push(tv) + rest);
                    }
                }
            },
        }
    }
}

} // verus!

//! Lexical tokens and their mathematical view.

use vstd::prelude::*;

verus! {

/// An atomic lexical unit produced by scanning raw text. Tokens are
/// immutable, produced once, consumed in order; none carries position
/// information.
#[derive(Clone, Debug, PartialEq, Eq)]
pub enum Token {
    /// A base-10 non-negative integer literal.
    Int(i32),
    OpenParen,
    ClosedParen,
    /// One of `+ - * / =`.
    Operator(char),
    /// A maximal run of ASCII letters.
    Identifier(String),
    /// Produced at the end of the text, forever after.
    EndOfInput,
}

/// The view of a `Token`: identical in shape, with the identifier's
/// characters as a `Seq<char>`.
pub enum TokenView {
    Int(i32),
    OpenParen,
    ClosedParen,
    Operator(char),
    Identifier(Seq<char>),
    EndOfInput,
}

/// The views of a token sequence, in order.
pub open spec fn token_views(tokens: Seq<Token>) -> Seq<TokenView> {
    tokens.map_values(|t: Token| t@)
}

impl View for Token {
    type V = TokenView;

    open spec fn view(&self) -> TokenView {
        match self {
            Token::Int(v) => TokenView::Int(*v),
            Token::OpenParen => TokenView::OpenParen,
            Token::ClosedParen => TokenView::ClosedParen,
            Token::Operator(c) => TokenView::Operator(*c),
            Token::Identifier(name) => TokenView::Identifier(name@),
            Token::EndOfInput => TokenView::EndOfInput,
        }
    }
}

/// The character for the decimal digit `d`.
pub open spec fn digit_char(d: nat) -> char {
    if d == 0 {
        '0'
    } else if d == 1 {
        '1'
    } else if d == 2 {
        '2'
    } else if d == 3 {
        '3'
    } else if d == 4 {
        '4'
    } else if d == 5 {
        '5'
    } else if d == 6 {
        '6'
    } else if d == 7 {
        '7'
    } else if d == 8 {
        '8'
    } else {
        '9'
    }
}

/// The decimal digits of `n`, most significant first, with no sign and no
/// leading zero (except for `n == 0` itself).
pub open spec fn dec_digits(n: nat) -> Seq<char>
    decreases n,
{
    if n < 10 {
        seq![digit_char(n)]
    } else {
        dec_digits(n / 10).push(digit_char(n % 10))
    }
}

/// The decimal rendering of `v`, with a leading `-` when it is negative.
pub open spec fn dec_string(v: int) -> Seq<char> {
    if v >= 0 {
        dec_digits(v as nat)
    } else {
        seq!['-'] + dec_digits((-v) as nat)
    }
}

/// The rendering of a token as text: the variant's name, with its payload in
/// parentheses where it has one.
pub open spec fn token_text(t: TokenView) -> Seq<char> {
    match t {
        TokenView::Int(v) => "Int("@ + dec_string(v as int) + ")"@,
        TokenView::OpenParen => "OpenParen"@,
        TokenView::ClosedParen => "ClosedParen"@,
        TokenView::Operator(c) => "Operator("@ + seq![c] + ")"@,
        TokenView::Identifier(name) => "Identifier("@ + name + ")"@,
        TokenView::EndOfInput => "EndOfInput"@,
    }
}

/// Relies on String::push: appends exactly the one character `c`.
#[verifier::external_body]
fn push_char(out: &mut String, c: char)
    ensures
        final(out)@ == old(out)@ + seq![c],
{
    out.push(c);
}

/// Appends the decimal digit `d` as one character.
fn append_digit(out: &mut String, d: u64)
    requires
        d < 10,
    ensures
        final(out)@ == old(out)@ + seq![digit_char(d as nat)],
{
    let c: char = if d == 0 {
        '0'
    } else if d == 1 {
        '1'
    } else if d == 2 {
        '2'
    } else if d == 3 {
        '3'
    } else if d == 4 {
        '4'
    } else if d == 5 {
        '5'
    } else if d == 6 {
        '6'
    } else if d == 7 {
        '7'
    } else if d == 8 {
        '8'
    } else {
        '9'
    };
    push_char(out, c);
}

/// Appends the decimal digits of `n`.
fn append_digits(out: &mut String, n: u64)
    ensures
        final(out)@ == old(out)@ + dec_digits(n as nat),
    decreases n,
{
    if n < 10 {
        append_digit(out, n);
    } else {
        let ghost before = out@;
        append_digits(out, n / 10);
        append_digit(out, n % 10);
        proof {
            assert(before + dec_digits((n / 10) as nat) + seq![digit_char((n % 10) as nat)]
                =~= before + dec_digits(n as nat));
        }
    }
}

/// Appends the decimal rendering of `v`.
fn append_decimal(out: &mut String, v: i32)
    ensures
        final(out)@ == old(out)@ + dec_string(v as int),
{
    if v >= 0 {
        append_digits(out, v as u64);
    } else {
        let ghost before = out@;
        push_char(out, '-');
        let magnitude: u64 = (-(v as i64)) as u64;
        append_digits(out, magnitude);
        proof {
            assert(before + seq!['-'] + dec_digits(magnitude as nat) =~= before + dec_string(
                v as int,
            ));
        }
    }
}

impl Token {
    /// The token as text (`Int(-3)`, `Operator(+)`, `EndOfInput`, ...).
    pub fn describe(&self) -> (r: String)
        ensures
            r@ == token_text(self@),
    {
        match self {
            Token::Int(v) => {
                let mut out = String::from_str("Int(");
                append_decimal(&mut out, *v);
                out.append(")");
                proof {
                    assert(out@ =~= token_text(self@));
                }
                out
            },
            Token::OpenParen => String::from_str("OpenParen"),
            Token::ClosedParen => String::from_str("ClosedParen"),
            Token::Operator(c) => {
                let mut out = String::from_str("Operator(");
                push_char(&mut out, *c);
                out.append(")");
                proof {
                    assert(out@ =~= token_text(self@));
                }
                out
            },
            Token::Identifier(name) => {
                let mut out = String::from_str("Identifier(");
                out.append(name.as_str());
                out.append(")");
                proof {
                    assert(out@ =~= token_text(self@));
                }
                out
            },
            Token::EndOfInput => String::from_str("EndOfInput"),
        }
    }
}

} // verus!

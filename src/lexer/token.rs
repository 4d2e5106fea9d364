//! Tokens and the rules by which a token grows one character at a time.
use vstd::prelude::*;
use vstd::string::StringExecFns;

verus! {

/// The numeric value of an ASCII decimal digit.
pub open spec fn digit_value(c: char) -> int {
    c as int - '0' as int
}

/// The ASCII digit of value `d`.
pub open spec fn digit_char(d: nat) -> char {
    ('0' as nat + d) as char
}

/// The decimal digits of `n`, most significant first, without leading zeros.
pub open spec fn digits_of(n: nat) -> Seq<char>
    decreases n,
{
    if n < 10 {
        seq![digit_char(n)]
    } else {
        digits_of(n / 10).push(digit_char(n % 10))
    }
}

/// The decimal text of the integer `i`, with a leading `-` when negative.
pub open spec fn int_text(i: int) -> Seq<char> {
    if i < 0 {
        seq!['-'] + digits_of((-i) as nat)
    } else {
        digits_of(i as nat)
    }
}

/// Appends the decimal digits of `n`.
pub(crate) fn push_digits(s: &mut String, n: u64)
    ensures
        final(s)@ == old(s)@ + digits_of(n as nat),
    decreases n,
{
    if n >= 10 {
        push_digits(s, n / 10);
    }
    let c = char_of_digit((n % 10) as u8);
    push_char(s, c);
    assert(digits_of(n as nat) == if n < 10 {
        seq![digit_char(n as nat)]
    } else {
        digits_of((n / 10) as nat).push(digit_char((n % 10) as nat))
    });
    assert(final(s)@ =~= old(s)@ + digits_of(n as nat));
}

/// The ASCII digit of value `d`.
fn char_of_digit(d: u8) -> (r: char)
    requires
        d < 10,
    ensures
        r == digit_char(d as nat),
{
    if d == 0 { '0' }
    else if d == 1 { '1' }
    else if d == 2 { '2' }
    else if d == 3 { '3' }
    else if d == 4 { '4' }
    else if d == 5 { '5' }
    else if d == 6 { '6' }
    else if d == 7 { '7' }
    else if d == 8 { '8' }
    else { '9' }
}

/// An ASCII decimal digit.
pub open spec fn is_digit(c: char) -> bool {
    '0' <= c && c <= '9'
}

/// An ASCII letter: the characters that may begin a unit name.
pub open spec fn is_letter(c: char) -> bool {
    ('a' <= c && c <= 'z') || ('A' <= c && c <= 'Z')
}

/// Whether `c` carries the Unicode `Alphabetic` property (as decided by std).
pub uninterp spec fn alphabetic(c: char) -> bool;

/// Whether `c` carries the Unicode `White_Space` property (as decided by std).
pub uninterp spec fn whitespace(c: char) -> bool;

/// Relies on `char::is_alphabetic`, which reports the Unicode `Alphabetic`
/// property of `c`; unit names continue on such characters.
#[verifier::external_body]
pub(crate) fn char_is_alphabetic(c: char) -> (r: bool)
    ensures
        r == alphabetic(c),
{
    c.is_alphabetic()
}

/// Relies on `char::is_whitespace`, which reports the Unicode `White_Space`
/// property of `c`; the lexer skips such characters.
#[verifier::external_body]
pub(crate) fn char_is_whitespace(c: char) -> (r: bool)
    ensures
        r == whitespace(c),
{
    c.is_whitespace()
}

/// Relies on `String::push`, which appends one character to the string.
#[verifier::external_body]
pub(crate) fn push_char(s: &mut String, c: char)
    ensures
        final(s)@ == old(s)@.push(c),
{
    s.push(c)
}

/// Whether `c` may continue a unit name: an ASCII letter, or beyond ASCII a
/// character with the Unicode `Alphabetic` property (among ASCII characters
/// the letters are exactly those with that property).
pub open spec fn name_char(c: char) -> bool {
    if (c as u32) < 128 {
        is_letter(c)
    } else {
        alphabetic(c)
    }
}

/// Whether `c` may continue a unit name.
pub fn char_continues_name(c: char) -> (r: bool)
    ensures
        r == name_char(c),
{
    if (c as u32) < 128 {
        ('a' <= c && c <= 'z') || ('A' <= c && c <= 'Z')
    } else {
        char_is_alphabetic(c)
    }
}

/// The text `x` after the text `prefix`.
pub(crate) fn prefixed(prefix: &str, x: &str) -> (r: String)
    ensures
        r@ == prefix@ + x@,
{
    let mut r = String::from_str(prefix);
    r.append(x);
    r
}

/// Whether `c` is an ASCII decimal digit.
pub fn char_is_digit(c: char) -> (r: bool)
    ensures
        r == is_digit(c),
{
    '0' <= c && c <= '9'
}

/// The value of the decimal digit `c`.
pub fn char_digit_value(c: char) -> (r: i64)
    requires
        is_digit(c),
    ensures
        r == digit_value(c),
        0 <= r <= 9,
{
    (c as u32 - '0' as u32) as i64
}

/// A string holding the single character `c`.
pub fn string_of_char(c: char) -> (r: String)
    ensures
        r@ == seq![c],
{
    let mut s = String::new();
    push_char(&mut s, c);
    s
}

/// An exact decimal number, `mantissa / 10^scale`.
#[derive(Clone, Copy, Debug, PartialEq, Eq, Structural)]
pub struct Fixed {
    pub mantissa: i64,
    pub scale: u32,
}

/// A decimal literal while its fractional digits are still being read.
///
/// `depth` is the position of the next fractional digit: a digit `d` read
/// now contributes `d * 10^-depth` to `value`.
#[derive(Clone, Copy, Debug, PartialEq, Eq, Structural)]
pub struct FloatInProg {
    pub value: Fixed,
    pub depth: u32,
}

/// A lexical token.
#[derive(Debug, PartialEq)]
pub enum Token {
    UnitString(String),
    Integer(i64),
    Float(Fixed),
    FloatIp(FloatInProg),
    /// `*` or `/`
    FactOp(char),
    /// `+` or `-`
    AddOp(char),
    OpenParen,
    CloseParen,
    NoToken,
}

/// The mathematical content of a [`Token`]: a unit name is its characters.
pub enum TokenModel {
    UnitString(Seq<char>),
    Integer(i64),
    Float(Fixed),
    FloatIp(FloatInProg),
    FactOp(char),
    AddOp(char),
    OpenParen,
    CloseParen,
    NoToken,
}

impl View for Token {
    type V = TokenModel;

    open spec fn view(&self) -> TokenModel {
        match self {
            Token::UnitString(s) => TokenModel::UnitString(s@),
            Token::Integer(i) => TokenModel::Integer(*i),
            Token::Float(f) => TokenModel::Float(*f),
            Token::FloatIp(f) => TokenModel::FloatIp(*f),
            Token::FactOp(c) => TokenModel::FactOp(*c),
            Token::AddOp(c) => TokenModel::AddOp(*c),
            Token::OpenParen => TokenModel::OpenParen,
            Token::CloseParen => TokenModel::CloseParen,
            Token::NoToken => TokenModel::NoToken,
        }
    }
}

/// The token that the character `c` begins; `NoToken` when `c` begins none.
pub open spec fn start_of(c: char) -> TokenModel {
    if is_letter(c) {
        TokenModel::UnitString(seq![c])
    } else if is_digit(c) {
        TokenModel::Integer(digit_value(c) as i64)
    } else if c == '+' || c == '-' {
        TokenModel::AddOp(c)
    } else if c == '*' || c == '/' {
        TokenModel::FactOp(c)
    } else if c == '(' {
        TokenModel::OpenParen
    } else if c == ')' {
        TokenModel::CloseParen
    } else {
        TokenModel::NoToken
    }
}

/// Whether `c` may extend the token `t`: letters extend a unit name, digits
/// extend a number, and one decimal point turns an integer into a decimal.
pub open spec fn continues(t: TokenModel, c: char) -> bool {
    match t {
        TokenModel::UnitString(_) => name_char(c),
        TokenModel::Integer(_) => is_digit(c) || c == '.',
        TokenModel::FloatIp(_) => is_digit(c),
        _ => false,
    }
}

/// Whether `v` fits in an `i64`.
pub open spec fn fits_i64(v: int) -> bool {
    i64::MIN <= v <= i64::MAX
}

/// The token `t` extended by `c`, or `None` where `c` cannot extend it or the
/// extended number no longer fits its machine integer.
pub open spec fn extended(t: TokenModel, c: char) -> Option<TokenModel> {
    match t {
        TokenModel::UnitString(s) => Some(TokenModel::UnitString(s.push(c))),
        TokenModel::Integer(x) => {
            if is_digit(c) {
                if fits_i64(x * 10) && fits_i64(x * 10 + digit_value(c)) {
                    Some(TokenModel::Integer((x * 10 + digit_value(c)) as i64))
                } else {
                    None
                }
            } else if c == '.' {
                Some(TokenModel::FloatIp(FloatInProg { value: Fixed { mantissa: x, scale: 0 }, depth: 1 }))
            } else {
                None
            }
        },
        TokenModel::FloatIp(f) => {
            if is_digit(c) && fits_i64(f.value.mantissa * 10) && fits_i64(
                f.value.mantissa * 10 + digit_value(c),
            ) && f.depth < u32::MAX {
                Some(
                    TokenModel::FloatIp(
                        FloatInProg {
                            value: Fixed {
                                mantissa: (f.value.mantissa * 10 + digit_value(c)) as i64,
                                scale: f.depth,
                            },
                            depth: (f.depth + 1) as u32,
                        },
                    ),
                )
            } else {
                None
            }
        },
        _ => None,
    }
}

/// The text of the decimal `m / 10^k` with exactly `k` digits after its point.
pub open spec fn fixed_text(m: nat, k: nat) -> Seq<char>
    decreases k,
{
    if k == 0 {
        digits_of(m).push('.')
    } else {
        fixed_text(m / 10, (k - 1) as nat).push(digit_char(m % 10))
    }
}

/// The text of the decimal `f`, with a leading `-` when negative and exactly
/// `f.scale` digits after its point.
pub open spec fn decimal_text(f: Fixed) -> Seq<char> {
    if f.mantissa < 0 {
        seq!['-'] + fixed_text((-f.mantissa) as nat, f.scale as nat)
    } else {
        fixed_text(f.mantissa as nat, f.scale as nat)
    }
}

/// The text that a token is written as.
pub open spec fn token_text(t: TokenModel) -> Seq<char> {
    match t {
        TokenModel::UnitString(s) => s,
        TokenModel::Integer(i) => int_text(i as int),
        TokenModel::Float(f) => decimal_text(f),
        TokenModel::FloatIp(f) => decimal_text(f.value),
        TokenModel::FactOp(c) => seq![c],
        TokenModel::AddOp(c) => seq![c],
        TokenModel::OpenParen => seq!['('],
        TokenModel::CloseParen => seq![')'],
        TokenModel::NoToken => Seq::empty(),
    }
}

/// Appends the text of the decimal `m / 10^k` with `k` digits after its point.
fn push_fixed(s: &mut String, m: u64, k: u32)
    ensures
        final(s)@ == old(s)@ + fixed_text(m as nat, k as nat),
    decreases k,
{
    if k == 0 {
        push_digits(s, m);
        push_char(s, '.');
        assert(final(s)@ =~= old(s)@ + fixed_text(m as nat, k as nat));
    } else {
        push_fixed(s, m / 10, k - 1);
        push_char(s, char_of_digit((m % 10) as u8));
        assert(final(s)@ =~= old(s)@ + fixed_text(m as nat, k as nat));
    }
}

/// The magnitude of `i` as an unsigned integer.
fn unsigned_abs(i: i64) -> (r: u64)
    ensures
        r == if i < 0 { -i } else { i as int },
{
    if i == i64::MIN {
        9_223_372_036_854_775_808u64
    } else if i < 0 {
        (-i) as u64
    } else {
        i as u64
    }
}

/// Why a token could not be extended.
#[derive(Debug)]
pub struct TokenError {
    pub message: String,
}

impl TokenError {
    /// An error naming the character `c` that could not extend a token.
    pub fn new(what: &str, c: char) -> (r: TokenError)
        ensures
            r.message@ == what@.push(c),
    {
        let mut message = String::from_str(what);
        push_char(&mut message, c);
        TokenError { message }
    }
}

impl Token {
    /// The text this token is written as: a unit name as itself, a number in
    /// decimal, an operator or parenthesis as its character.
    pub fn text(&self) -> (r: String)
        ensures
            r@ == token_text(self@),
    {
        let mut s = String::new();
        match self {
            Token::UnitString(name) => {
                s.append(name.as_str());
            },
            Token::Integer(i) => {
                if *i < 0 {
                    push_char(&mut s, '-');
                }
                push_digits(&mut s, unsigned_abs(*i));
            },
            Token::Float(f) => {
                if f.mantissa < 0 {
                    push_char(&mut s, '-');
                }
                push_fixed(&mut s, unsigned_abs(f.mantissa), f.scale);
            },
            Token::FloatIp(f) => {
                if f.value.mantissa < 0 {
                    push_char(&mut s, '-');
                }
                push_fixed(&mut s, unsigned_abs(f.value.mantissa), f.value.scale);
            },
            Token::FactOp(c) => {
                push_char(&mut s, *c);
            },
            Token::AddOp(c) => {
                push_char(&mut s, *c);
            },
            Token::OpenParen => {
                push_char(&mut s, '(');
            },
            Token::CloseParen => {
                push_char(&mut s, ')');
            },
            Token::NoToken => {},
        }
        assert(s@ =~= token_text(self@));
        s
    }

    /// Whether `c` is a valid continuation of this token.
    pub fn is_continuation(&self, c: char) -> (r: bool)
        ensures
            r == continues(self@, c),
    {
        match self {
            Token::UnitString(_) => char_continues_name(c),
            Token::Integer(_) => char_is_digit(c) || c == '.',
            Token::FloatIp(_) => char_is_digit(c),
            _ => false,
        }
    }

    /// The token that `c` begins, `NoToken` when it begins none.
    pub fn from(c: char) -> (r: Token)
        ensures
            r@ == start_of(c),
    {
        if ('a' <= c && c <= 'z') || ('A' <= c && c <= 'Z') {
            Token::UnitString(string_of_char(c))
        } else if char_is_digit(c) {
            Token::Integer(char_digit_value(c))
        } else if c == '+' || c == '-' {
            Token::AddOp(c)
        } else if c == '*' || c == '/' {
            Token::FactOp(c)
        } else if c == '(' {
            Token::OpenParen
        } else if c == ')' {
            Token::CloseParen
        } else {
            Token::NoToken
        }
    }

    /// This token extended by the character `rhs`.
    pub fn add(self, rhs: char) -> (r: Result<Token, TokenError>)
        ensures
            r is Ok <==> extended(self@, rhs) is Some,
            r is Ok ==> r->Ok_0@ == extended(self@, rhs)->Some_0,
    {
        match self {
            Token::UnitString(x) => {
                let mut s = x;
                push_char(&mut s, rhs);
                Ok(Token::UnitString(s))
            },
            Token::Integer(x) => {
                if char_is_digit(rhs) {
                    let d = char_digit_value(rhs);
                    match x.checked_mul(10) {
                        Some(y) => match y.checked_add(d) {
                            Some(z) => Ok(Token::Integer(z)),
                            None => Err(TokenError::new("bad continuation of int: ", rhs)),
                        },
                        None => Err(TokenError::new("bad continuation of int: ", rhs)),
                    }
                } else if rhs == '.' {
                    Ok(Token::FloatIp(FloatInProg { value: Fixed { mantissa: x, scale: 0 }, depth: 1 }))
                } else {
                    Err(TokenError::new("bad continuation of int: ", rhs))
                }
            },
            Token::FloatIp(f) => {
                if char_is_digit(rhs) && f.depth < u32::MAX {
                    let d = char_digit_value(rhs);
                    match f.value.mantissa.checked_mul(10) {
                        Some(y) => match y.checked_add(d) {
                            Some(z) => Ok(
                                Token::FloatIp(
                                    FloatInProg {
                                        value: Fixed { mantissa: z, scale: f.depth },
                                        depth: f.depth + 1,
                                    },
                                ),
                            ),
                            None => Err(TokenError::new("bad continuation of float: ", rhs)),
                        },
                        None => Err(TokenError::new("bad continuation of float: ", rhs)),
                    }
                } else {
                    Err(TokenError::new("bad continuation of float: ", rhs))
                }
            },
            _ => Err(TokenError::new("no continuation of this token by: ", rhs)),
        }
    }
}

} // verus!

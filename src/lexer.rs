//! Turning text into a flat sequence of tokens.
pub mod token;

pub use token::{FloatInProg, Fixed, Token, TokenError, TokenModel};

use token::{
    char_is_whitespace, continues, digit_char, digit_value, digits_of, extended, fixed_text,
    is_digit, prefixed, start_of, token_text, whitespace,
};
use vstd::prelude::*;
use vstd::std_specs::iter::IteratorSpec;

verus! {

/// Why a text could not be lexed.
#[derive(Clone, Debug)]
pub struct LexError {
    pub message: String,
}

impl LexError {
    /// The lexing error that carries a token error.
    pub fn from(e: TokenError) -> (r: LexError)
        ensures
            r.message@ == "lex_error: token_error: "@ + e.message@,
    {
        LexError { message: prefixed("lex_error: token_error: ", e.message.as_str()) }
    }
}

/// The lexer between two characters: the tokens completed so far and the
/// token still growing, if any.
pub struct LexState {
    pub out: Seq<TokenModel>,
    pub ongoing: Option<TokenModel>,
}

/// The token as it is emitted once complete: a decimal still reading digits
/// becomes a finished decimal.
pub open spec fn closed(t: TokenModel) -> TokenModel {
    match t {
        TokenModel::FloatIp(f) => TokenModel::Float(f.value),
        _ => t,
    }
}

/// The completed tokens with the growing one, if any, emitted as well.
pub open spec fn flushed(st: LexState) -> Seq<TokenModel> {
    match st.ongoing {
        Some(t) => st.out.push(closed(t)),
        None => st.out,
    }
}

/// Whether `t` is a token of one character, emitted as soon as it is read.
pub open spec fn is_single(t: TokenModel) -> bool {
    t is FactOp || t is AddOp || t is OpenParen || t is CloseParen
}

/// The lexer after reading `c` in state `st`; `None` on a lexing error.
///
/// Whitespace is skipped without closing the growing token. A character that
/// continues the growing token extends it. Any other character closes it and
/// begins a token of its own.
pub open spec fn step(st: LexState, c: char) -> Option<LexState> {
    if whitespace(c) {
        Some(st)
    } else if st.ongoing is Some && continues(st.ongoing->Some_0, c) {
        match extended(st.ongoing->Some_0, c) {
            Some(t) => Some(LexState { out: st.out, ongoing: Some(t) }),
            None => None,
        }
    } else {
        let out = flushed(st);
        let t = start_of(c);
        if t is NoToken {
            None
        } else if is_single(t) {
            Some(LexState { out: out.push(t), ongoing: None })
        } else {
            Some(LexState { out, ongoing: Some(t) })
        }
    }
}

/// The lexer after reading all of `s` from the start; `None` on an error.
pub open spec fn run(s: Seq<char>) -> Option<LexState>
    decreases s.len(),
{
    if s.len() == 0 {
        Some(LexState { out: Seq::empty(), ongoing: None })
    } else {
        match run(s.drop_last()) {
            Some(st) => step(st, s.last()),
            None => None,
        }
    }
}

/// Once the lexer has failed on a prefix, it fails on the whole text.
proof fn lemma_run_fails_onward(s: Seq<char>, k: int)
    requires
        0 <= k <= s.len(),
        run(s.subrange(0, k)) is None,
    ensures
        run(s) is None,
    decreases s.len() - k,
{
    if k < s.len() {
        assert(s.subrange(0, k + 1).drop_last() =~= s.subrange(0, k));
        lemma_run_fails_onward(s, k + 1);
    } else {
        assert(s.subrange(0, k) =~= s);
    }
}

/// The tokens of the text `s`, or `None` where `s` does not lex.
pub open spec fn lexed(s: Seq<char>) -> Option<Seq<TokenModel>> {
    match run(s) {
        Some(st) => Some(flushed(st)),
        None => None,
    }
}

/// The characters of `s` that are not whitespace.
pub open spec fn without_whitespace(s: Seq<char>) -> Seq<char>
    decreases s.len(),
{
    if s.len() == 0 {
        s
    } else if whitespace(s.last()) {
        without_whitespace(s.drop_last())
    } else {
        without_whitespace(s.drop_last()).push(s.last())
    }
}

/// The texts of a sequence of tokens, one after the other.
pub open spec fn texts(ts: Seq<TokenModel>) -> Seq<char>
    decreases ts.len(),
{
    if ts.len() == 0 {
        Seq::empty()
    } else {
        texts(ts.drop_last()) + token_text(ts.last())
    }
}

/// Whether no number in `t` is written with a redundant leading zero: every
/// zero followed by a digit is itself preceded by a digit or a decimal point.
pub open spec fn no_leading_zeros(t: Seq<char>) -> bool {
    forall|i: int|
        0 <= i < t.len() - 1 && #[trigger] t[i] == '0' && is_digit(t[i + 1]) ==> i > 0 && (is_digit(
            t[i - 1],
        ) || t[i - 1] == '.')
}

/// The text of the growing token, if any.
pub open spec fn ongoing_text(o: Option<TokenModel>) -> Seq<char> {
    match o {
        Some(t) => token_text(t),
        None => Seq::empty(),
    }
}

/// Whether the last character of `t` is a zero that begins a number.
pub open spec fn zero_begins(t: Seq<char>) -> bool {
    &&& t.len() >= 1
    &&& t.last() == '0'
    &&& t.len() >= 2 ==> !(is_digit(t[t.len() - 2]) || t[t.len() - 2] == '.')
}

/// What holds of the lexer's state `st` after it has read the characters
/// `t` that are not whitespace.
pub open spec fn text_kept(st: LexState, t: Seq<char>) -> bool {
    &&& texts(st.out) + ongoing_text(st.ongoing) == t
    &&& match st.ongoing {
        Some(TokenModel::Integer(x)) => x >= 0 && (x == 0 ==> zero_begins(t)),
        Some(TokenModel::FloatIp(f)) => f.value.mantissa >= 0 && f.value.scale + 1 == f.depth,
        Some(TokenModel::UnitString(_)) => true,
        None => true,
        _ => false,
    }
    &&& t.len() > 0 && (is_digit(t.last()) || t.last() == '.') ==> (st.ongoing matches Some(o) && (
    o is Integer || o is FloatIp))
}

proof fn lemma_texts_push(ts: Seq<TokenModel>, t: TokenModel)
    ensures
        texts(ts.push(t)) == texts(ts) + token_text(t),
{
    assert(ts.push(t).drop_last() =~= ts);
}

proof fn lemma_digit_round_trip(c: char)
    requires
        is_digit(c),
    ensures
        digit_char(digit_value(c) as nat) == c,
        0 <= digit_value(c) <= 9,
{
}

proof fn lemma_append_digit(x: nat, d: nat)
    requires
        d < 10,
    ensures
        (10 * x + d) / 10 == x,
        (10 * x + d) % 10 == d,
        x > 0 ==> digits_of(10 * x + d) == digits_of(x).push(digit_char(d)),
{
    assert((10 * x + d) / 10 == x && (10 * x + d) % 10 == d) by (nonlinear_arith)
        requires
            d < 10,
    ;
}

/// Reading one more character that is not whitespace keeps [`text_kept`].
proof fn lemma_step_keeps_text(st: LexState, t: Seq<char>, c: char)
    requires
        text_kept(st, t),
        !whitespace(c),
        step(st, c) is Some,
        no_leading_zeros(t.push(c)),
    ensures
        text_kept(step(st, c)->Some_0, t.push(c)),
{
    let t2 = t.push(c);
    let next = step(st, c)->Some_0;
    assert(t2.last() == c);
    if st.ongoing is Some && continues(st.ongoing->Some_0, c) {
        let o = st.ongoing->Some_0;
        match o {
            TokenModel::UnitString(name) => {
                assert(texts(next.out) + ongoing_text(next.ongoing) =~= t2);
            },
            TokenModel::Integer(x) => {
                if c == '.' {
                    assert(texts(next.out) + ongoing_text(next.ongoing) =~= t2);
                } else {
                    lemma_digit_round_trip(c);
                    let d = digit_value(c);
                    lemma_append_digit(x as nat, d as nat);
                    if x == 0 {
                        assert(t2[t.len() - 1] == '0');
                        assert(t2[t.len() as int] == c);
                        assert(false);
                    }
                    assert(texts(next.out) + ongoing_text(next.ongoing) =~= t2);
                }
            },
            TokenModel::FloatIp(f) => {
                lemma_digit_round_trip(c);
                let d = digit_value(c);
                let m = f.value.mantissa as nat;
                lemma_append_digit(m, d as nat);
                let g = next.ongoing->Some_0->FloatIp_0;
                assert(g.value.mantissa == 10 * m + d);
                assert(fixed_text(g.value.mantissa as nat, g.value.scale as nat) == fixed_text(
                    m,
                    f.value.scale as nat,
                ).push(digit_char(d as nat)));
                assert(texts(next.out) + ongoing_text(next.ongoing) =~= t2);
            },
            _ => {},
        }
    } else {
        let out = flushed(st);
        assert(texts(out) == texts(st.out) + ongoing_text(st.ongoing)) by {
            if st.ongoing is Some {
                lemma_texts_push(st.out, closed(st.ongoing->Some_0));
            }
        }
        let s0 = start_of(c);
        if is_single(s0) {
            lemma_texts_push(out, s0);
            assert(texts(next.out) + ongoing_text(next.ongoing) =~= t2);
        } else {
            if is_digit(c) {
                lemma_digit_round_trip(c);
                if t.len() > 0 && (is_digit(t.last()) || t.last() == '.') {
                    assert(false);
                }
                if t.len() > 0 {
                    assert(t2[t2.len() - 2] == t[t.len() - 1]);
                }
            }
            assert(texts(next.out) + ongoing_text(next.ongoing) =~= t2);
        }
    }
}

/// The lexer's state after any text keeps [`text_kept`] for the text's
/// characters that are not whitespace.
proof fn lemma_run_keeps_text(p: Seq<char>)
    requires
        run(p) is Some,
        no_leading_zeros(without_whitespace(p)),
    ensures
        text_kept(run(p)->Some_0, without_whitespace(p)),
    decreases p.len(),
{
    if p.len() > 0 {
        let q = p.drop_last();
        let c = p.last();
        assert(run(q) is Some);
        let t = without_whitespace(q);
        if !whitespace(c) {
            assert(no_leading_zeros(t)) by {
                assert forall|i: int|
                    0 <= i < t.len() - 1 && #[trigger] t[i] == '0' && is_digit(t[i + 1]) implies i
                    > 0 && (is_digit(t[i - 1]) || t[i - 1] == '.') by {
                    assert(without_whitespace(p)[i] == t[i]);
                    assert(without_whitespace(p)[i + 1] == t[i + 1]);
                    if i > 0 {
                        assert(without_whitespace(p)[i - 1] == t[i - 1]);
                    }
                }
            }
            lemma_run_keeps_text(q);
            lemma_step_keeps_text(run(q)->Some_0, t, c);
            assert(run(p) == step(run(q)->Some_0, c));
            assert(without_whitespace(p) == t.push(c));
        } else {
            lemma_run_keeps_text(q);
            assert(run(p) == step(run(q)->Some_0, c));
            assert(without_whitespace(p) == t);
        }
    } else {
        assert(without_whitespace(p) =~= Seq::<char>::empty());
        assert(texts(Seq::<TokenModel>::empty()) == Seq::<char>::empty());
        assert(Seq::<char>::empty() + Seq::<char>::empty() =~= Seq::<char>::empty());
    }
}

/// Lexing loses nothing but whitespace: where a text lexes and writes no
/// number with a redundant leading zero (such as `007`), writing its tokens
/// one after the other gives back the text without its whitespace.
pub proof fn lemma_lex_round_trip(s: Seq<char>)
    requires
        lexed(s) is Some,
        no_leading_zeros(without_whitespace(s)),
    ensures
        texts(lexed(s)->Some_0) == without_whitespace(s),
{
    lemma_run_keeps_text(s);
    let st = run(s)->Some_0;
    if st.ongoing is Some {
        lemma_texts_push(st.out, closed(st.ongoing->Some_0));
    }
}

/// Whether every operator token of `ts` holds one of the four arithmetic
/// operators: `+` or `-` as additive, `*` or `/` as multiplicative.
pub open spec fn operators_proper(ts: Seq<TokenModel>) -> bool {
    forall|i: int|
        0 <= i < ts.len() ==> match #[trigger] ts[i] {
            TokenModel::AddOp(c) => c == '+' || c == '-',
            TokenModel::FactOp(c) => c == '*' || c == '/',
            _ => true,
        }
}

proof fn lemma_push_proper(ts: Seq<TokenModel>, t: TokenModel)
    requires
        operators_proper(ts),
        operators_proper(seq![t]),
    ensures
        operators_proper(ts.push(t)),
{
    assert forall|i: int| 0 <= i < ts.push(t).len() implies match #[trigger] ts.push(t)[i] {
        TokenModel::AddOp(c) => c == '+' || c == '-',
        TokenModel::FactOp(c) => c == '*' || c == '/',
        _ => true,
    } by {
        if i == ts.len() {
            assert(seq![t][0] == t);
        }
    }
}

proof fn lemma_run_operators_proper(p: Seq<char>)
    requires
        run(p) is Some,
    ensures
        operators_proper(run(p)->Some_0.out),
        run(p)->Some_0.ongoing matches Some(o) ==> !(o is AddOp || o is FactOp),
    decreases p.len(),
{
    if p.len() > 0 {
        let q = p.drop_last();
        let c = p.last();
        lemma_run_operators_proper(q);
        let st = run(q)->Some_0;
        if !whitespace(c) && !(st.ongoing is Some && continues(st.ongoing->Some_0, c)) {
            if st.ongoing is Some {
                assert(operators_proper(seq![closed(st.ongoing->Some_0)]));
                lemma_push_proper(st.out, closed(st.ongoing->Some_0));
            }
            if is_single(start_of(c)) {
                assert(operators_proper(seq![start_of(c)]));
                lemma_push_proper(flushed(st), start_of(c));
            }
        }
    }
}

/// Every operator token that lexing emits is one of `+ - * /`.
pub proof fn lemma_lexed_operators_proper(s: Seq<char>)
    requires
        lexed(s) is Some,
    ensures
        operators_proper(lexed(s)->Some_0),
{
    lemma_run_operators_proper(s);
    let st = run(s)->Some_0;
    if st.ongoing is Some {
        assert(operators_proper(seq![closed(st.ongoing->Some_0)]));
        lemma_push_proper(st.out, closed(st.ongoing->Some_0));
    }
}

/// The models of a sequence of tokens.
pub open spec fn models(v: Seq<Token>) -> Seq<TokenModel> {
    v.map_values(|t: Token| t@)
}

/// The model of an optional token.
pub open spec fn opt_model(o: Option<Token>) -> Option<TokenModel> {
    match o {
        Some(t) => Some(t@),
        None => None,
    }
}

/// Emits `t` as a completed token.
fn push_closed(res: &mut Vec<Token>, t: Token)
    ensures
        models(final(res)@) == models(old(res)@).push(closed(t@)),
{
    let t = match t {
        Token::FloatIp(f) => Token::Float(f.value),
        other => other,
    };
    res.push(t);
    assert(models(res@) =~= models(old(res)@).push(t@));
}

/// Splits `input` into tokens.
///
/// Succeeds exactly when `input` lexes, with the tokens that [`lexed`] gives.
pub fn lex(input: &str) -> (r: Result<Vec<Token>, LexError>)
    ensures
        r is Ok <==> lexed(input@) is Some,
        r is Ok ==> models(r->Ok_0@) == lexed(input@)->Some_0,
{
    let mut res: Vec<Token> = Vec::new();
    let mut ongoing: Option<Token> = None;
    let mut chars = input.chars();
    let ghost mut done: int = 0;
    assert(models(res@) =~= Seq::<TokenModel>::empty());
    loop
        invariant
            0 <= done <= input@.len(),
            chars.remaining() == input@.subrange(done, input@.len() as int),
            run(input@.subrange(0, done)) == Some(
                LexState { out: models(res@), ongoing: opt_model(ongoing) },
            ),
        ensures
            done == input@.len(),
            run(input@) == Some(LexState { out: models(res@), ongoing: opt_model(ongoing) }),
        decreases input@.len() - done,
    {
        let ghost before = chars.remaining();
        let next = chars.next();
        let c = match next {
            None => {
                assert(before.len() == 0);
                assert(input@.subrange(0, done) =~= input@);
                break ;
            },
            Some(c) => c,
        };
        proof {
            assert(input@.subrange(0, done + 1).drop_last() =~= input@.subrange(0, done));
            assert(input@.subrange(0, done + 1).last() == c);
            done = done + 1;
            assert(chars.remaining() =~= input@.subrange(done, input@.len() as int));
        }
        if char_is_whitespace(c) {
            continue ;
        }
        if let Some(ot) = ongoing {
            if ot.is_continuation(c) {
                match ot.add(c) {
                    Ok(t) => {
                        ongoing = Some(t);
                        continue ;
                    },
                    Err(e) => {
                        proof {
                            lemma_run_fails_onward(input@, done);
                        }
                        return Err(LexError::from(e));
                    },
                }
            } else {
                push_closed(&mut res, ot);
                ongoing = None;
            }
        }
        let temp = Token::from(c);
        match temp {
            Token::FactOp(_) | Token::AddOp(_) | Token::OpenParen | Token::CloseParen => {
                let ghost prior = res@;
                res.push(temp);
                assert(models(res@) =~= models(prior).push(start_of(c)));
            },
            Token::NoToken => {
                let mut message = String::from_str("lex_error: no token begins with: ");
                token::push_char(&mut message, c);
                proof {
                    lemma_run_fails_onward(input@, done);
                }
                return Err(LexError { message });
            },
            _ => {
                ongoing = Some(temp);
            },
        }
    }
    if let Some(ot) = ongoing {
        push_closed(&mut res, ot);
    }
    Ok(res)
}

} // verus!

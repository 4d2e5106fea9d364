//! The whole pipeline: text to tokens to tree to quantity.
use crate::evaluator::{
    arithmetic, evaluate, evaluated, lemma_literal_arithmetic, literal_only, EvaluateError,
};
use crate::lexer::token::prefixed;
use crate::lexer::{lemma_lexed_operators_proper, lex, lexed, operators_proper, LexError};
use crate::parser::{
    chain_tree, is_chain, last_add, lemma_chains_follow_precedence, parse, parsed, product_tree,
    ParseError,
};
use crate::lexer::token::TokenModel;
use crate::parser::{is_number, leaf, op_char, ExprModel};
use crate::units::{dimensionless, same_value, SiValue};
use vstd::prelude::*;

verus! {

/// Why a text could not be turned into a quantity, at whichever stage.
#[derive(Clone, Debug)]
pub struct ConvertError {
    pub message: String,
}

impl ConvertError {
    /// A conversion error with the given message.
    pub fn new(x: &str) -> (r: ConvertError)
        ensures
            r.message@ == "convert_error: "@ + x@,
    {
        ConvertError { message: prefixed("convert_error: ", x) }
    }
}

/// The quantity that the text `s` denotes, or `None` where lexing, parsing or
/// evaluating it fails.
pub open spec fn calculated(s: Seq<char>) -> Option<SiValue> {
    match lexed(s) {
        Some(ts) => match parsed(ts) {
            Some(e) => evaluated(e),
            None => None,
        },
        None => None,
    }
}

/// A text that lexes and parses to a tree of number literals and `+ - * /`
/// alone evaluates to a dimensionless quantity whose magnitude is exactly the
/// ordinary arithmetic value of that tree. The parser builds the tree with `*`
/// and `/` binding tighter than `+` and `-`, and each level grouped to the
/// left, so this is calculator arithmetic at standard precedence.
pub proof fn lemma_calculator_arithmetic(s: Seq<char>)
    requires
        lexed(s) is Some,
        parsed(lexed(s)->Some_0) is Some,
        literal_only(parsed(lexed(s)->Some_0)->Some_0),
    ensures
        calculated(s) is Some,
        calculated(s)->Some_0.unit == dimensionless(),
        same_value(
            calculated(s)->Some_0.real.value(),
            arithmetic(parsed(lexed(s)->Some_0)->Some_0),
        ),
{
    lemma_literal_arithmetic(parsed(lexed(s)->Some_0)->Some_0);
}

proof fn lemma_chain_prefix(ts: Seq<TokenModel>, k: int)
    requires
        is_chain(ts),
        operators_proper(ts),
        0 <= k < ts.len(),
        k % 2 == 1,
    ensures
        is_chain(ts.subrange(0, k)),
        operators_proper(ts.subrange(0, k)),
        is_chain(ts.subrange(k + 1, ts.len() as int)),
        operators_proper(ts.subrange(k + 1, ts.len() as int)),
{
    let a = ts.subrange(0, k);
    let b = ts.subrange(k + 1, ts.len() as int);
    assert forall|i: int| 0 <= i < b.len() implies #[trigger] b[i] == ts[i + k + 1] by {}
    assert(is_chain(b)) by {
        assert forall|i: int| 0 <= i < b.len() && i % 2 == 1 implies ((#[trigger] b[i]) is AddOp
            || b[i] is FactOp) by {
            assert(b[i] == ts[i + k + 1]);
        }
    }
    assert(operators_proper(b)) by {
        assert forall|i: int| 0 <= i < b.len() implies match #[trigger] b[i] {
            TokenModel::AddOp(c) => c == '+' || c == '-',
            TokenModel::FactOp(c) => c == '*' || c == '/',
            _ => true,
        } by {
            assert(b[i] == ts[i + k + 1]);
        }
    }
}

proof fn lemma_product_tree_literal(ts: Seq<TokenModel>)
    requires
        is_chain(ts),
        operators_proper(ts),
    ensures
        literal_only(product_tree(ts)),
    decreases ts.len(),
{
    assert(is_number(ts[0]));
    if ts.len() >= 3 {
        lemma_chain_prefix(ts, ts.len() - 2);
        lemma_product_tree_literal(ts.subrange(0, ts.len() - 2));
        let o = ts[ts.len() - 2];
        assert(o is AddOp || o is FactOp);
        assert(is_number(ts[ts.len() - 1]));
        assert(match o {
            TokenModel::AddOp(c) => c == '+' || c == '-',
            TokenModel::FactOp(c) => c == '*' || c == '/',
            _ => true,
        });
        assert(literal_only(leaf(ts.last())));
        assert(op_char(o) == '+' || op_char(o) == '-' || op_char(o) == '*' || op_char(o) == '/');
        assert(product_tree(ts) == ExprModel::Binary(
            Box::new(product_tree(ts.subrange(0, ts.len() - 2))),
            op_char(o),
            Box::new(leaf(ts.last())),
        ));
    } else {
        assert(literal_only(leaf(ts[0])));
    }
}

proof fn lemma_chain_tree_literal(ts: Seq<TokenModel>)
    requires
        is_chain(ts),
        operators_proper(ts),
    ensures
        literal_only(chain_tree(ts)),
    decreases ts.len(),
{
    lemma_last_add_position(ts);
    let k = last_add(ts);
    if 0 <= k < ts.len() {
        lemma_chain_prefix(ts, k);
        lemma_chain_tree_literal(ts.subrange(0, k));
        lemma_product_tree_literal(ts.subrange(k + 1, ts.len() as int));
    } else {
        lemma_product_tree_literal(ts);
    }
}

proof fn lemma_last_add_position(ts: Seq<TokenModel>)
    requires
        is_chain(ts),
    ensures
        -1 <= last_add(ts) < ts.len(),
        0 <= last_add(ts) ==> last_add(ts) % 2 == 1 && ts[last_add(ts)] is AddOp,
    decreases ts.len(),
{
    if ts.len() > 0 && !(ts.last() is AddOp) {
        let d = ts.drop_last();
        assert forall|i: int| 0 <= i < d.len() && i % 2 == 0 implies is_number(#[trigger] d[i]) by {
            assert(d[i] == ts[i]);
        }
        assert forall|i: int| 0 <= i < d.len() && i % 2 == 1 implies ((#[trigger] d[i]) is AddOp
            || d[i] is FactOp) by {
            assert(d[i] == ts[i]);
        }
        if d.len() % 2 == 1 {
            lemma_last_add_position(d);
        } else {
            lemma_last_add_even(d);
        }
    }
}

proof fn lemma_last_add_even(d: Seq<TokenModel>)
    requires
        forall|i: int| 0 <= i < d.len() && i % 2 == 0 ==> is_number(#[trigger] d[i]),
        forall|i: int| 0 <= i < d.len() && i % 2 == 1 ==> ((#[trigger] d[i]) is AddOp || d[i] is FactOp),
    ensures
        -1 <= last_add(d) < d.len(),
        0 <= last_add(d) ==> last_add(d) % 2 == 1 && d[last_add(d)] is AddOp,
    decreases d.len(),
{
    if d.len() > 0 && !(d.last() is AddOp) {
        let e = d.drop_last();
        assert forall|i: int| 0 <= i < e.len() && i % 2 == 0 implies is_number(#[trigger] e[i]) by {
            assert(e[i] == d[i]);
        }
        assert forall|i: int| 0 <= i < e.len() && i % 2 == 1 implies ((#[trigger] e[i]) is AddOp
            || e[i] is FactOp) by {
            assert(e[i] == d[i]);
        }
        lemma_last_add_even(e);
    }
}

/// A text whose tokens are number literals joined by `+ - * /` is evaluated
/// as on a calculator: it parses with `*` and `/` binding tighter than `+` and
/// `-` and each level grouped to the left (the tree [`chain_tree`] splits at
/// the last `+` or `-`, else at the last `*` or `/`), and it evaluates to a
/// dimensionless quantity whose magnitude is exactly the ordinary arithmetic
/// value of that tree.
pub proof fn lemma_chains_are_calculator_arithmetic(s: Seq<char>)
    requires
        lexed(s) is Some,
        is_chain(lexed(s)->Some_0),
    ensures
        parsed(lexed(s)->Some_0) == Some(chain_tree(lexed(s)->Some_0)),
        calculated(s) is Some,
        calculated(s)->Some_0.unit == dimensionless(),
        same_value(calculated(s)->Some_0.real.value(), arithmetic(chain_tree(lexed(s)->Some_0))),
{
    let ts = lexed(s)->Some_0;
    lemma_chains_follow_precedence(ts);
    lemma_lexed_operators_proper(s);
    lemma_chain_tree_literal(ts);
    lemma_literal_arithmetic(chain_tree(ts));
}

/// Lexes, parses and evaluates `input`.
pub fn run(input: &str) -> (r: Result<SiValue, ConvertError>)
    ensures
        r is Ok <==> calculated(input@) is Some,
        r is Ok ==> r->Ok_0 == calculated(input@)->Some_0,
{
    let toks = match lex(input) {
        Ok(t) => t,
        Err(LexError { message }) => return Err(ConvertError::new(message.as_str())),
    };
    let exp = match parse(toks) {
        Ok(e) => e,
        Err(ParseError { message }) => return Err(ConvertError::new(message.as_str())),
    };
    match evaluate(exp) {
        Ok(v) => Ok(v),
        Err(EvaluateError { message }) => Err(ConvertError::new(message.as_str())),
    }
}

} // verus!

//! A recursive-descent parser from tokens to expression trees.
//!
//! The grammar, with `*` for repetition and `?` for an optional part:
//!
//! ```text
//! expression := term
//! term       := factor (('+' | '-') factor)*
//! factor     := quantity (('*' | '/') quantity)*
//! quantity   := primary unit_pow*
//! primary    := INTEGER | DECIMAL | '(' expression ')' | unit_pow
//! unit_pow   := UNIT_NAME INTEGER?
//! ```
//!
//! The parser works on a stack of tokens whose top is the next token to read,
//! so the stack holds the input in reverse. Each rule takes a stack and gives
//! back its tree together with the stack that is left.
use crate::lexer::token::{prefixed, Fixed, Token, TokenModel};
use crate::lexer::models;
use vstd::prelude::*;

verus! {

/// An expression tree.
#[derive(Debug, PartialEq)]
pub enum Expression {
    NoExp,
    Binary(Box<Expression>, char, Box<Expression>),
    Quantity(Box<Expression>, Box<Expression>),
    PrimaryInt(i64),
    PrimaryFloat(Fixed),
    Unit(String),
    UnitPow(String, i64),
}

/// The mathematical content of an [`Expression`]: a unit name is its characters.
pub enum ExprModel {
    NoExp,
    Binary(Box<ExprModel>, char, Box<ExprModel>),
    Quantity(Box<ExprModel>, Box<ExprModel>),
    PrimaryInt(i64),
    PrimaryFloat(Fixed),
    Unit(Seq<char>),
    UnitPow(Seq<char>, i64),
}

impl View for Expression {
    type V = ExprModel;

    open spec fn view(&self) -> ExprModel
        decreases self,
    {
        match self {
            Expression::NoExp => ExprModel::NoExp,
            Expression::Binary(a, op, b) => ExprModel::Binary(
                Box::new((**a).view()),
                *op,
                Box::new((**b).view()),
            ),
            Expression::Quantity(a, b) => ExprModel::Quantity(
                Box::new((**a).view()),
                Box::new((**b).view()),
            ),
            Expression::PrimaryInt(i) => ExprModel::PrimaryInt(*i),
            Expression::PrimaryFloat(f) => ExprModel::PrimaryFloat(*f),
            Expression::Unit(s) => ExprModel::Unit(s@),
            Expression::UnitPow(s, i) => ExprModel::UnitPow(s@, *i),
        }
    }
}

/// Why a token sequence could not be parsed.
#[derive(Clone, Debug)]
pub struct ParseError {
    pub message: String,
}

impl ParseError {
    /// A parse error with the given message.
    pub fn new(x: &str) -> (r: ParseError)
        ensures
            r.message@ == "parse_error: "@ + x@,
    {
        ParseError { message: prefixed("parse_error: ", x) }
    }
}

/// What a grammar rule gives on a stack: its tree and the stack left over, or
/// `None` where the tokens do not fit the rule.
pub type Parsed = Option<(ExprModel, Seq<TokenModel>)>;

/// `unit_pow` on the stack `s`.
pub open spec fn p_unit_pow(s: Seq<TokenModel>) -> Parsed {
    if s.len() > 0 && s.last() is UnitString {
        let name = s.last()->UnitString_0;
        let r = s.drop_last();
        if r.len() > 0 && r.last() is Integer {
            Some((ExprModel::UnitPow(name, r.last()->Integer_0), r.drop_last()))
        } else {
            Some((ExprModel::Unit(name), r))
        }
    } else {
        None
    }
}

/// `primary` on the stack `s`.
pub open spec fn p_primary(s: Seq<TokenModel>) -> Parsed
    decreases s.len(), 0int,
{
    if s.len() == 0 {
        None
    } else {
        let r = s.drop_last();
        match s.last() {
            TokenModel::Integer(i) => Some((ExprModel::PrimaryInt(i), r)),
            TokenModel::Float(f) => Some((ExprModel::PrimaryFloat(f), r)),
            TokenModel::OpenParen => match p_expression(r) {
                Some((e, r2)) => if r2.len() > 0 && r2.last() is CloseParen {
                    Some((e, r2.drop_last()))
                } else {
                    None
                },
                None => None,
            },
            TokenModel::UnitString(_) => p_unit_pow(s),
            _ => None,
        }
    }
}

/// The unit suffixes that follow `acc` on the stack `s`, each wrapping what
/// came before it in a `Quantity`.
pub open spec fn p_quantity_tail(acc: ExprModel, s: Seq<TokenModel>) -> Parsed
    decreases s.len(), 1int,
{
    if s.len() > 0 && s.last() is UnitString {
        match p_unit_pow(s) {
            Some((u, r)) => p_quantity_tail(ExprModel::Quantity(Box::new(acc), Box::new(u)), r),
            None => None,
        }
    } else {
        Some((acc, s))
    }
}

/// `quantity` on the stack `s`.
pub open spec fn p_quantity(s: Seq<TokenModel>) -> Parsed
    decreases s.len(), 2int,
{
    match p_primary(s) {
        Some((e, r)) => if r.len() <= s.len() {
            p_quantity_tail(e, r)
        } else {
            None
        },
        None => None,
    }
}

/// The `*` and `/` operations that follow `acc` on the stack `s`, folded to
/// the left.
pub open spec fn p_factor_tail(acc: ExprModel, s: Seq<TokenModel>) -> Parsed
    decreases s.len(), 3int,
{
    if s.len() > 0 && s.last() is FactOp {
        match p_quantity(s.drop_last()) {
            Some((e, r)) => if r.len() < s.len() {
                p_factor_tail(ExprModel::Binary(Box::new(acc), s.last()->FactOp_0, Box::new(e)), r)
            } else {
                None
            },
            None => None,
        }
    } else {
        Some((acc, s))
    }
}

/// `factor` on the stack `s`.
pub open spec fn p_factor(s: Seq<TokenModel>) -> Parsed
    decreases s.len(), 4int,
{
    match p_quantity(s) {
        Some((e, r)) => if r.len() <= s.len() {
            p_factor_tail(e, r)
        } else {
            None
        },
        None => None,
    }
}

/// The `+` and `-` operations that follow `acc` on the stack `s`, folded to
/// the left.
pub open spec fn p_term_tail(acc: ExprModel, s: Seq<TokenModel>) -> Parsed
    decreases s.len(), 5int,
{
    if s.len() > 0 && s.last() is AddOp {
        match p_factor(s.drop_last()) {
            Some((e, r)) => if r.len() < s.len() {
                p_term_tail(ExprModel::Binary(Box::new(acc), s.last()->AddOp_0, Box::new(e)), r)
            } else {
                None
            },
            None => None,
        }
    } else {
        Some((acc, s))
    }
}

/// `term` on the stack `s`.
pub open spec fn p_term(s: Seq<TokenModel>) -> Parsed
    decreases s.len(), 6int,
{
    match p_factor(s) {
        Some((e, r)) => if r.len() <= s.len() {
            p_term_tail(e, r)
        } else {
            None
        },
        None => None,
    }
}

/// `expression` on the stack `s`.
pub open spec fn p_expression(s: Seq<TokenModel>) -> Parsed
    decreases s.len(), 7int,
{
    p_term(s)
}

/// The tree of the token sequence `ts`, read from the front, or `None` where
/// `ts` is not an expression with nothing after it.
pub open spec fn parsed(ts: Seq<TokenModel>) -> Option<ExprModel> {
    match p_expression(ts.reverse()) {
        Some((e, rest)) => if rest.len() == 0 {
            Some(e)
        } else {
            None
        },
        None => None,
    }
}

/// The character of an operator token.
pub open spec fn op_char(t: TokenModel) -> char {
    match t {
        TokenModel::AddOp(c) => c,
        TokenModel::FactOp(c) => c,
        _ => ' ',
    }
}

/// Whether `t` is a number literal.
pub open spec fn is_number(t: TokenModel) -> bool {
    t is Integer || t is Float
}

/// The tree of a number literal.
pub open spec fn leaf(t: TokenModel) -> ExprModel {
    match t {
        TokenModel::Integer(i) => ExprModel::PrimaryInt(i),
        TokenModel::Float(f) => ExprModel::PrimaryFloat(f),
        _ => ExprModel::NoExp,
    }
}

/// Whether `ts` is a chain `n o n o ... n` of number literals joined by the
/// operators `+ - * /`.
pub open spec fn is_chain(ts: Seq<TokenModel>) -> bool {
    &&& ts.len() % 2 == 1
    &&& forall|i: int| 0 <= i < ts.len() && i % 2 == 0 ==> is_number(#[trigger] ts[i])
    &&& forall|i: int| 0 <= i < ts.len() && i % 2 == 1 ==> ((#[trigger] ts[i]) is AddOp || ts[i] is FactOp)
}

/// Whether `r` continues a chain: `o n o n ... o n`.
pub open spec fn is_chain_rest(r: Seq<TokenModel>) -> bool {
    &&& r.len() % 2 == 0
    &&& forall|i: int| 0 <= i < r.len() && i % 2 == 1 ==> is_number(#[trigger] r[i])
    &&& forall|i: int| 0 <= i < r.len() && i % 2 == 0 ==> ((#[trigger] r[i]) is AddOp || r[i] is FactOp)
}

/// Whether no token of `ts` is `+` or `-`.
pub open spec fn no_add(ts: Seq<TokenModel>) -> bool {
    forall|i: int| 0 <= i < ts.len() ==> !((#[trigger] ts[i]) is AddOp)
}

/// The position of the last `+` or `-` in `ts`, or `-1` where there is none.
pub open spec fn last_add(ts: Seq<TokenModel>) -> int
    decreases ts.len(),
{
    if ts.len() == 0 {
        -1
    } else if ts.last() is AddOp {
        ts.len() - 1
    } else {
        last_add(ts.drop_last())
    }
}

/// The tree of a chain without `+` or `-`: its last operator applied to the
/// tree of what comes before it and the last number.
pub open spec fn product_tree(ts: Seq<TokenModel>) -> ExprModel
    decreases ts.len(),
{
    if ts.len() < 3 {
        leaf(ts[0])
    } else {
        ExprModel::Binary(
            Box::new(product_tree(ts.subrange(0, ts.len() - 2))),
            op_char(ts[ts.len() - 2]),
            Box::new(leaf(ts.last())),
        )
    }
}

/// The tree of a chain by the usual rules: split at its last `+` or `-`, or
/// where there is none at its last `*` or `/`.
pub open spec fn chain_tree(ts: Seq<TokenModel>) -> ExprModel
    decreases ts.len(),
{
    let k = last_add(ts);
    if 0 <= k < ts.len() {
        ExprModel::Binary(
            Box::new(chain_tree(ts.subrange(0, k))),
            op_char(ts[k]),
            Box::new(product_tree(ts.subrange(k + 1, ts.len() as int))),
        )
    } else {
        product_tree(ts)
    }
}

/// The position in `r` of its first `+` or `-`, or its length where there is
/// none.
pub open spec fn first_add(r: Seq<TokenModel>) -> int
    decreases r.len(),
{
    if r.len() == 0 || r[0] is AddOp {
        0
    } else {
        1 + first_add(r.subrange(1, r.len() as int))
    }
}

proof fn lemma_last_add_range(ts: Seq<TokenModel>)
    ensures
        -1 <= last_add(ts) < ts.len(),
        0 <= last_add(ts) ==> ts[last_add(ts)] is AddOp,
    decreases ts.len(),
{
    if ts.len() > 0 && !(ts.last() is AddOp) {
        lemma_last_add_range(ts.drop_last());
    }
}

proof fn lemma_last_add_skips(x: Seq<TokenModel>, y: Seq<TokenModel>)
    requires
        no_add(y),
    ensures
        last_add(x + y) == last_add(x),
    decreases y.len(),
{
    if y.len() > 0 {
        assert((x + y).drop_last() =~= x + y.drop_last());
        assert((x + y).last() == y[y.len() - 1]);
        lemma_last_add_skips(x, y.drop_last());
    } else {
        assert(x + y =~= x);
    }
}

proof fn lemma_first_add_range(r: Seq<TokenModel>)
    ensures
        0 <= first_add(r) <= r.len(),
        first_add(r) < r.len() ==> r[first_add(r)] is AddOp,
        no_add(r.subrange(0, first_add(r))),
    decreases r.len(),
{
    if r.len() > 0 && !(r[0] is AddOp) {
        let r1 = r.subrange(1, r.len() as int);
        lemma_first_add_range(r1);
        assert forall|i: int| 0 <= i < first_add(r) implies !((#[trigger] r.subrange(
            0,
            first_add(r),
        )[i]) is AddOp) by {
            if i > 0 {
                assert(r.subrange(0, first_add(r))[i] == r1.subrange(0, first_add(r1))[i - 1]);
            }
        }
    }
}

proof fn lemma_pop_reversed(x: Seq<TokenModel>)
    requires
        x.len() > 0,
    ensures
        x.reverse().len() == x.len(),
        x.reverse().last() == x[0],
        x.reverse().drop_last() == x.subrange(1, x.len() as int).reverse(),
{
    assert(x.reverse().drop_last() =~= x.subrange(1, x.len() as int).reverse());
}

/// A `*` or `/` chain after an accumulated product runs up to the first `+`
/// or `-`.
proof fn lemma_factor_tail_chain(p: Seq<TokenModel>, r: Seq<TokenModel>)
    requires
        is_chain(p),
        no_add(p),
        is_chain_rest(r),
    ensures
        first_add(r) % 2 == 0,
        p_factor_tail(product_tree(p), r.reverse()) == Some(
            (
                product_tree(p + r.subrange(0, first_add(r))),
                r.subrange(first_add(r), r.len() as int).reverse(),
            ),
        ),
    decreases r.len(),
{
    lemma_first_add_range(r);
    if r.len() == 0 || r[0] is AddOp {
        assert(p + r.subrange(0, 0) =~= p);
        assert(r.subrange(0, r.len() as int) =~= r);
        if r.len() > 0 {
            lemma_pop_reversed(r);
        }
    } else {
        let o = r[0];
        let n = r[1];
        let r2 = r.subrange(2, r.len() as int);
        lemma_pop_reversed(r);
        let r1 = r.subrange(1, r.len() as int);
        lemma_pop_reversed(r1);
        assert(r1.subrange(1, r1.len() as int) =~= r2);
        let longer = p + seq![o, n];
        assert(longer.subrange(0, longer.len() - 2) =~= p);
        assert(product_tree(longer) == ExprModel::Binary(
            Box::new(product_tree(p)),
            op_char(o),
            Box::new(leaf(n)),
        ));
        assert(r2.reverse().len() == 0 || !(r2.reverse().last() is UnitString)) by {
            if r2.len() > 0 {
                lemma_pop_reversed(r2);
            }
        }
        assert(p_quantity(r1.reverse()) == Some((leaf(n), r2.reverse())));
        assert(is_chain(longer)) by {
            assert forall|i: int| 0 <= i < longer.len() && i % 2 == 0 implies is_number(#[trigger] longer[i]) by {
                if i >= p.len() {
                    assert(longer[i] == r[i - p.len()]);
                }
            }
            assert forall|i: int| 0 <= i < longer.len() && i % 2 == 1 implies ((#[trigger] longer[i]) is AddOp || longer[i] is FactOp) by {
                if i >= p.len() {
                    assert(longer[i] == r[i - p.len()]);
                }
            }
        }
        assert(no_add(longer)) by {
            assert forall|i: int| 0 <= i < longer.len() implies !((#[trigger] longer[i]) is AddOp) by {
                if i >= p.len() {
                    assert(longer[i] == r[i - p.len()]);
                }
            }
        }
        assert(is_chain_rest(r2)) by {
            assert forall|i: int| 0 <= i < r2.len() && i % 2 == 1 implies is_number(#[trigger] r2[i]) by {
                assert(r2[i] == r[i + 2]);
            }
            assert forall|i: int| 0 <= i < r2.len() && i % 2 == 0 implies ((#[trigger] r2[i]) is AddOp || r2[i] is FactOp) by {
                assert(r2[i] == r[i + 2]);
            }
        }
        lemma_factor_tail_chain(longer, r2);
        assert(first_add(r1) == 1 + first_add(r2)) by {
            assert(!(r1[0] is AddOp));
            assert(r1.subrange(1, r1.len() as int) =~= r2);
        }
        assert(first_add(r) == 2 + first_add(r2));
        assert(longer + r2.subrange(0, first_add(r2)) =~= p + r.subrange(0, first_add(r)));
        assert(r2.subrange(first_add(r2), r2.len() as int) =~= r.subrange(first_add(r), r.len() as int));
    }
}

proof fn lemma_chain_rest_from(r: Seq<TokenModel>, k: int)
    requires
        is_chain_rest(r),
        0 <= k <= r.len(),
        k % 2 == 0,
    ensures
        is_chain_rest(r.subrange(k, r.len() as int)),
{
    let q = r.subrange(k, r.len() as int);
    assert forall|i: int| 0 <= i < q.len() && i % 2 == 1 implies is_number(#[trigger] q[i]) by {
        assert(q[i] == r[i + k]);
    }
    assert forall|i: int| 0 <= i < q.len() && i % 2 == 0 implies ((#[trigger] q[i]) is AddOp || q[i] is FactOp) by {
        assert(q[i] == r[i + k]);
    }
}

proof fn lemma_chain_extends(p: Seq<TokenModel>, r: Seq<TokenModel>, k: int)
    requires
        is_chain(p),
        is_chain_rest(r),
        0 <= k <= r.len(),
        k % 2 == 0,
    ensures
        is_chain(p + r.subrange(0, k)),
{
    let q = p + r.subrange(0, k);
    assert forall|i: int| 0 <= i < q.len() && i % 2 == 0 implies is_number(#[trigger] q[i]) by {
        if i >= p.len() {
            assert(q[i] == r[i - p.len()]);
        }
    }
    assert forall|i: int| 0 <= i < q.len() && i % 2 == 1 implies ((#[trigger] q[i]) is AddOp || q[i] is FactOp) by {
        if i >= p.len() {
            assert(q[i] == r[i - p.len()]);
        }
    }
}

/// A chain continued by `+` or `-` folds its products to the left.
proof fn lemma_term_tail_chain(p: Seq<TokenModel>, r: Seq<TokenModel>)
    requires
        is_chain(p),
        is_chain_rest(r),
        r.len() == 0 || r[0] is AddOp,
    ensures
        p_term_tail(chain_tree(p), r.reverse()) == Some((chain_tree(p + r), Seq::<TokenModel>::empty())),
    decreases r.len(),
{
    if r.len() == 0 {
        assert(p + r =~= p);
        assert(r.reverse() =~= Seq::<TokenModel>::empty());
    } else {
        let o = r[0];
        let n = r[1];
        let r1 = r.subrange(1, r.len() as int);
        let r2 = r.subrange(2, r.len() as int);
        lemma_pop_reversed(r);
        lemma_pop_reversed(r1);
        assert(r1.subrange(1, r1.len() as int) =~= r2);
        assert(r2.reverse().len() == 0 || !(r2.reverse().last() is UnitString)) by {
            if r2.len() > 0 {
                lemma_pop_reversed(r2);
            }
        }
        assert(p_quantity(r1.reverse()) == Some((leaf(n), r2.reverse())));
        let single = seq![n];
        assert(product_tree(single) == leaf(n));
        lemma_chain_rest_from(r, 2);
        lemma_factor_tail_chain(single, r2);
        let j = first_add(r2);
        lemma_first_add_range(r2);
        let run = single + r2.subrange(0, j);
        let rest = r2.subrange(j, r2.len() as int);
        assert(p_factor(r1.reverse()) == Some((product_tree(run), rest.reverse())));
        let longer = p + seq![o] + run;
        assert(no_add(run)) by {
            assert forall|i: int| 0 <= i < run.len() implies !((#[trigger] run[i]) is AddOp) by {
                if i > 0 {
                    assert(run[i] == r2.subrange(0, j)[i - 1]);
                }
            }
        }
        assert(last_add(p + seq![o]) == p.len()) by {
            assert((p + seq![o]).last() == o);
        }
        lemma_last_add_skips(p + seq![o], run);
        assert(longer.subrange(0, p.len() as int) =~= p);
        assert(longer.subrange(p.len() + 1int, longer.len() as int) =~= run);
        assert(longer[p.len() as int] == o);
        assert(chain_tree(longer) == ExprModel::Binary(
            Box::new(chain_tree(p)),
            op_char(o),
            Box::new(product_tree(run)),
        ));
        assert(longer =~= p + r.subrange(0, j + 2)) by {
            assert forall|i: int| 0 <= i < longer.len() implies longer[i] == (p + r.subrange(0, j + 2))[i] by {
                if i > p.len() + 1 {
                    assert(longer[i] == r2[i - p.len() - 2]);
                }
            }
        }
        lemma_chain_extends(p, r, j + 2);
        lemma_chain_rest_from(r2, j);
        assert(rest.len() == 0 || rest[0] is AddOp);
        lemma_term_tail_chain(longer, rest);
        assert(longer + rest =~= p + r) by {
            assert forall|i: int| 0 <= i < longer.len() + rest.len() implies (longer + rest)[i] == (p + r)[i] by {
                if i >= longer.len() {
                    assert(rest[i - longer.len()] == r2[i - longer.len() + j]);
                }
            }
        }
    }
}

/// A chain of integers joined by `+ - * /` parses by the usual rules of
/// precedence: the tree splits at the last `+` or `-`, and where there is
/// none at the last `*` or `/`, so that `*` and `/` bind tighter than `+` and
/// `-` and each level groups to the left.
pub proof fn lemma_chains_follow_precedence(ts: Seq<TokenModel>)
    requires
        is_chain(ts),
    ensures
        parsed(ts) == Some(chain_tree(ts)),
{
    let s = ts.reverse();
    let r = ts.subrange(1, ts.len() as int);
    lemma_pop_reversed(ts);
    assert(is_chain_rest(r)) by {
        assert forall|i: int| 0 <= i < r.len() && i % 2 == 1 implies is_number(#[trigger] r[i]) by {
            assert(r[i] == ts[i + 1]);
        }
        assert forall|i: int| 0 <= i < r.len() && i % 2 == 0 implies ((#[trigger] r[i]) is AddOp || r[i] is FactOp) by {
            assert(r[i] == ts[i + 1]);
        }
    }
    assert(r.reverse().len() == 0 || !(r.reverse().last() is UnitString)) by {
        if r.len() > 0 {
            lemma_pop_reversed(r);
        }
    }
    let n = ts[0];
    assert(p_quantity(s) == Some((leaf(n), r.reverse())));
    let single = seq![n];
    assert(product_tree(single) == leaf(n));
    lemma_factor_tail_chain(single, r);
    let j = first_add(r);
    lemma_first_add_range(r);
    let run = single + r.subrange(0, j);
    let rest = r.subrange(j, r.len() as int);
    assert(p_factor(s) == Some((product_tree(run), rest.reverse())));
    assert(no_add(run)) by {
        assert forall|i: int| 0 <= i < run.len() implies !((#[trigger] run[i]) is AddOp) by {
            if i > 0 {
                assert(run[i] == r.subrange(0, j)[i - 1]);
            }
        }
    }
    lemma_last_add_skips(Seq::<TokenModel>::empty(), run);
    assert(Seq::<TokenModel>::empty() + run =~= run);
    assert(chain_tree(run) == product_tree(run));
    lemma_chain_extends(single, r, j);
    lemma_chain_rest_from(r, j);
    lemma_term_tail_chain(run, rest);
    assert(run + rest =~= ts);
    assert(p_term(s) == Some((chain_tree(ts), Seq::<TokenModel>::empty())));
}

/// What a parsing function owes for the rule result `p`, given what it
/// returned and the stack it left.
pub open spec fn delivers(p: Parsed, r: Result<Expression, ParseError>, left: Seq<Token>) -> bool {
    match p {
        Some((e, rest)) => r is Ok && r->Ok_0@ == e && models(left) == rest,
        None => r is Err,
    }
}

/// Takes the top token off the stack.
fn pop_token(tokens: &mut Vec<Token>) -> (r: Option<Token>)
    ensures
        old(tokens)@.len() == 0 ==> r is None && final(tokens)@ == old(tokens)@,
        old(tokens)@.len() > 0 ==> {
            &&& r is Some
            &&& r->Some_0@ == models(old(tokens)@).last()
            &&& models(final(tokens)@) == models(old(tokens)@).drop_last()
            &&& final(tokens)@.len() == old(tokens)@.len() - 1
        },
{
    let r = tokens.pop();
    proof {
        if old(tokens)@.len() > 0 {
            assert(models(tokens@) =~= models(old(tokens)@).drop_last());
        }
    }
    r
}

/// Puts a token back on top of the stack.
fn push_token(tokens: &mut Vec<Token>, t: Token)
    ensures
        models(final(tokens)@) == models(old(tokens)@).push(t@),
        final(tokens)@.len() == old(tokens)@.len() + 1,
{
    let ghost m = t@;
    tokens.push(t);
    assert(models(tokens@) =~= models(old(tokens)@).push(m));
}

/// Parses a unit name with an optional integer power; leaves the stack as it
/// was where the top token is no unit name.
fn unit_pow(tokens: &mut Vec<Token>) -> (r: Option<Expression>)
    ensures
        match p_unit_pow(models(old(tokens)@)) {
            Some((e, rest)) => r is Some && r->Some_0@ == e && models(final(tokens)@) == rest
                && final(tokens)@.len() < old(tokens)@.len(),
            None => r is None && models(final(tokens)@) == models(old(tokens)@),
        },
{
    let ghost s = models(tokens@);
    match pop_token(tokens) {
        Some(Token::UnitString(name)) => match pop_token(tokens) {
            Some(Token::Integer(i)) => Some(Expression::UnitPow(name, i)),
            None => Some(Expression::Unit(name)),
            Some(other) => {
                push_token(tokens, other);
                assert(models(tokens@) =~= s.drop_last());
                Some(Expression::Unit(name))
            },
        },
        Some(other) => {
            push_token(tokens, other);
            assert(models(tokens@) =~= s);
            None
        },
        None => None,
    }
}

/// Parses a primary: a number, a parenthesised expression or a unit.
fn primary(tokens: &mut Vec<Token>) -> (r: Result<Expression, ParseError>)
    ensures
        delivers(p_primary(models(old(tokens)@)), r, final(tokens)@),
        r is Ok ==> final(tokens)@.len() <= old(tokens)@.len(),
    decreases old(tokens)@.len(), 0int,
{
    let ghost s = models(tokens@);
    match pop_token(tokens) {
        Some(Token::Integer(i)) => Ok(Expression::PrimaryInt(i)),
        Some(Token::Float(f)) => Ok(Expression::PrimaryFloat(f)),
        Some(Token::OpenParen) => {
            let inner = match expression(tokens) {
                Ok(e) => e,
                Err(e) => return Err(e),
            };
            match pop_token(tokens) {
                Some(Token::CloseParen) => Ok(inner),
                _ => Err(ParseError::new("primary: expected )")),
            }
        },
        Some(Token::UnitString(name)) => {
            push_token(tokens, Token::UnitString(name));
            assert(models(tokens@) =~= s);
            match unit_pow(tokens) {
                Some(e) => Ok(e),
                None => Err(ParseError::new("primary: expected a unit")),
            }
        },
        None => Err(ParseError::new("primary: ran out of tokens")),
        _ => Err(ParseError::new("primary: unexpected token")),
    }
}

/// Parses a primary followed by any number of unit suffixes.
fn quantity(tokens: &mut Vec<Token>) -> (r: Result<Expression, ParseError>)
    ensures
        delivers(p_quantity(models(old(tokens)@)), r, final(tokens)@),
        r is Ok ==> final(tokens)@.len() <= old(tokens)@.len(),
    decreases old(tokens)@.len(), 2int,
{
    let mut acc = match primary(tokens) {
        Ok(e) => e,
        Err(e) => return Err(e),
    };
    loop
        invariant
            tokens@.len() <= old(tokens)@.len(),
            p_quantity_tail(acc@, models(tokens@)) == p_quantity(models(old(tokens)@)),
        decreases tokens@.len(),
    {
        let next_is_unit = match tokens.last() {
            Some(Token::UnitString(_)) => true,
            _ => false,
        };
        if !next_is_unit {
            return Ok(acc);
        }
        match unit_pow(tokens) {
            Some(u) => {
                acc = Expression::Quantity(Box::new(acc), Box::new(u));
            },
            None => {
                return Err(ParseError::new("quantity: expected a unit"));
            },
        }
    }
}

/// Parses quantities joined by `*` and `/`, grouping to the left.
fn factor(tokens: &mut Vec<Token>) -> (r: Result<Expression, ParseError>)
    ensures
        delivers(p_factor(models(old(tokens)@)), r, final(tokens)@),
        r is Ok ==> final(tokens)@.len() <= old(tokens)@.len(),
    decreases old(tokens)@.len(), 4int,
{
    let mut acc = match quantity(tokens) {
        Ok(e) => e,
        Err(e) => return Err(e),
    };
    loop
        invariant
            tokens@.len() <= old(tokens)@.len(),
            p_factor_tail(acc@, models(tokens@)) == p_factor(models(old(tokens)@)),
        decreases tokens@.len(),
    {
        let ghost s = models(tokens@);
        match pop_token(tokens) {
            Some(Token::FactOp(c)) => {
                match quantity(tokens) {
                    Ok(e) => {
                        acc = Expression::Binary(Box::new(acc), c, Box::new(e));
                    },
                    Err(err) => {
                        return Err(err);
                    },
                }
            },
            Some(other) => {
                push_token(tokens, other);
                assert(models(tokens@) =~= s);
                return Ok(acc);
            },
            None => {
                return Ok(acc);
            },
        }
    }
}

/// Parses factors joined by `+` and `-`, grouping to the left.
fn term(tokens: &mut Vec<Token>) -> (r: Result<Expression, ParseError>)
    ensures
        delivers(p_term(models(old(tokens)@)), r, final(tokens)@),
        r is Ok ==> final(tokens)@.len() <= old(tokens)@.len(),
    decreases old(tokens)@.len(), 6int,
{
    let mut acc = match factor(tokens) {
        Ok(e) => e,
        Err(e) => return Err(e),
    };
    loop
        invariant
            tokens@.len() <= old(tokens)@.len(),
            p_term_tail(acc@, models(tokens@)) == p_term(models(old(tokens)@)),
        decreases tokens@.len(),
    {
        let ghost s = models(tokens@);
        match pop_token(tokens) {
            Some(Token::AddOp(c)) => {
                match factor(tokens) {
                    Ok(e) => {
                        acc = Expression::Binary(Box::new(acc), c, Box::new(e));
                    },
                    Err(err) => {
                        return Err(err);
                    },
                }
            },
            Some(other) => {
                push_token(tokens, other);
                assert(models(tokens@) =~= s);
                return Ok(acc);
            },
            None => {
                return Ok(acc);
            },
        }
    }
}

/// Parses an expression.
fn expression(tokens: &mut Vec<Token>) -> (r: Result<Expression, ParseError>)
    ensures
        delivers(p_expression(models(old(tokens)@)), r, final(tokens)@),
        r is Ok ==> final(tokens)@.len() <= old(tokens)@.len(),
    decreases old(tokens)@.len(), 7int,
{
    term(tokens)
}

/// Parses a whole token sequence into one expression tree.
///
/// Succeeds exactly when the tokens form one expression with nothing left
/// over, with the tree that [`parsed`] gives.
pub fn parse(input: Vec<Token>) -> (r: Result<Box<Expression>, ParseError>)
    ensures
        r is Ok <==> parsed(models(input@)) is Some,
        r is Ok ==> r->Ok_0@ == parsed(models(input@))->Some_0,
{
    let ghost all = models(input@);
    let ghost n = input@.len();
    let mut input = input;
    let mut stack: Vec<Token> = Vec::new();
    assert(models(stack@) =~= all.reverse().subrange(0, 0));
    while input.len() > 0
        invariant
            input@.len() <= n,
            n == all.len(),
            models(input@) == all.subrange(0, input@.len() as int),
            models(stack@) == all.reverse().subrange(0, n - input@.len()),
        decreases input@.len(),
    {
        let ghost k = input@.len();
        let t = pop_token(&mut input).unwrap();
        push_token(&mut stack, t);
        assert(models(input@) =~= all.subrange(0, input@.len() as int));
        assert(models(stack@) =~= all.reverse().subrange(0, n - input@.len()));
    }
    assert(models(stack@) =~= all.reverse());
    let exp = match expression(&mut stack) {
        Ok(e) => e,
        Err(e) => return Err(e),
    };
    if stack.len() == 0 {
        Ok(Box::new(exp))
    } else {
        Err(ParseError::new("parser did not consume all tokens"))
    }
}

} // verus!

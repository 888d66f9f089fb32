use vstd::prelude::*;
use crate::error::CalcError;
use crate::function::{Builtin, Function, FunctionV, builtin_of};
use crate::names::NameMap;
use crate::token::{Token, TokenV, Value, ValueV, view_seq};
use crate::validate::{balanced, brackets_balanced, depth};

verus! {

/// The binary operators that the evaluator reduces.
#[derive(Clone, Copy, Debug, PartialEq, Eq, Structural)]
pub enum BinOp {
    Pow,
    Mul,
    Div,
    Mod,
    Add,
    Sub,
}

/// An expression reduced to its operations; the host computes its value with
/// IEEE-754 doubles.
#[derive(Debug)]
pub enum Expr {
    Leaf(Value),
    Binary(BinOp, Box<Expr>, Box<Expr>),
    /// A built-in function applied to one argument; the flag is set when
    /// angles are in radians, else they are in degrees.
    Call(Builtin, bool, Box<Expr>),
}

/// The mathematical view of an [`Expr`].
pub enum ExprV {
    Leaf(ValueV),
    Binary(BinOp, Box<ExprV>, Box<ExprV>),
    Call(Builtin, bool, Box<ExprV>),
}

pub open spec fn expr_view(e: Expr) -> ExprV
    decreases e,
{
    match e {
        Expr::Leaf(v) => ExprV::Leaf(v@),
        Expr::Binary(op, l, r) => ExprV::Binary(op, Box::new(expr_view(*l)), Box::new(expr_view(*r))),
        Expr::Call(b, rad, a) => ExprV::Call(b, rad, Box::new(expr_view(*a))),
    }
}

impl View for Expr {
    type V = ExprV;

    open spec fn view(&self) -> ExprV {
        expr_view(*self)
    }
}

pub open spec fn result_view(r: Result<Expr, CalcError>) -> Result<ExprV, CalcError> {
    match r {
        Ok(e) => Ok(e@),
        Err(e) => Err(e),
    }
}

/// The value of an empty expression.
pub open spec fn zero() -> ValueV {
    ValueV::Literal { negative: false, digits: seq![48u8] }
}

/// The operator that `t` stands for at precedence `level`: sums at 0,
/// products at 1, powers at 2.
pub open spec fn split_op(level: int, t: TokenV) -> Option<BinOp> {
    match t {
        TokenV::Addition => if level == 0 { Some(BinOp::Add) } else { None },
        TokenV::Subtraction => if level == 0 { Some(BinOp::Sub) } else { None },
        TokenV::Multiplication => if level == 1 { Some(BinOp::Mul) } else { None },
        TokenV::Division => if level == 1 { Some(BinOp::Div) } else { None },
        TokenV::Modulation => if level == 1 { Some(BinOp::Mod) } else { None },
        TokenV::Exponentation => if level == 2 { Some(BinOp::Pow) } else { None },
        _ => None,
    }
}

/// `s[k]` is an operator of `level` outside all brackets.
pub open spec fn is_split(s: Seq<TokenV>, level: int, k: int) -> bool {
    split_op(level, s[k]) is Some && depth(s.subrange(0, k)) == 0
}

/// The last index below `j` where `s` splits at `level`.
pub open spec fn last_split(s: Seq<TokenV>, level: int, j: int) -> Option<int>
    decreases j,
{
    if j <= 0 {
        None
    } else if is_split(s, level, j - 1) {
        Some(j - 1)
    } else {
        last_split(s, level, j - 1)
    }
}

/// The views of the trees of `v`.
pub open spec fn exprs_view(v: Seq<Expr>) -> Seq<ExprV> {
    v.map_values(|e: Expr| e@)
}

/// The third part of the measure of `parse_args`: above every level of `parse`.
pub open spec fn args_rank(s: Seq<TokenV>, j: int) -> int {
    4 + if 0 <= j <= s.len() { s.len() - j } else { 0 }
}

/// The values of the argument expressions of a call whose brackets hold `s`,
/// each read on its own at the lowest precedence: the pieces between the
/// commas outside all brackets, scanned from `j` with the current piece
/// starting at `start`. The first argument that fails decides the error.
pub open spec fn parse_args(
    funcs: Map<Seq<u8>, FunctionV>,
    radians: bool,
    s: Seq<TokenV>,
    start: int,
    j: int,
    env: Seq<ExprV>,
    fuel: nat,
) -> Result<Seq<ExprV>, CalcError>
    decreases fuel, s.len(), args_rank(s, j),
{
    if j < 0 || start < 0 || start > j || j > s.len() {
        Err(CalcError::Unsupported)
    } else if j >= s.len() {
        match parse(funcs, radians, s.subrange(start, s.len() as int), 0, env, fuel) {
            Ok(e) => Ok(seq![e]),
            Err(e) => Err(e),
        }
    } else if s[j] is Comma && depth(s.subrange(0, j)) == 0 {
        match parse(funcs, radians, s.subrange(start, j), 0, env, fuel) {
            Ok(e) => match parse_args(funcs, radians, s, j + 1, j + 1, env, fuel) {
                Ok(rest) => Ok(seq![e] + rest),
                Err(e) => Err(e),
            },
            Err(e) => Err(e),
        }
    } else {
        parse_args(funcs, radians, s, start, j + 1, env, fuel)
    }
}

/// What the evaluator makes of the resolved tokens `s` at precedence `level`:
/// each level splits at its last operator outside brackets, so that operators
/// of one level group from the left; what holds no such operator is read at
/// the next level, and at the last one as a number, an argument of the user
/// function being evaluated (its value in `env`), a bracketed expression or a
/// function call. A call first evaluates each of its arguments on its own; a
/// user function then evaluates its body with those values for its
/// arguments, `fuel` calls deep at most.
pub open spec fn parse(
    funcs: Map<Seq<u8>, FunctionV>,
    radians: bool,
    s: Seq<TokenV>,
    level: int,
    env: Seq<ExprV>,
    fuel: nat,
) -> Result<ExprV, CalcError>
    decreases fuel, s.len(), 3 - level via parse_decreases
{
    if s.len() == 0 {
        Ok(ExprV::Leaf(zero()))
    } else if level < 3 {
        match last_split(s, level, s.len() as int) {
            Some(k) => match parse(funcs, radians, s.subrange(0, k), level, env, fuel) {
                Ok(l) => match parse(funcs, radians, s.subrange(k + 1, s.len() as int), level + 1, env, fuel) {
                    Ok(r) => Ok(ExprV::Binary(split_op(level, s[k])->0, Box::new(l), Box::new(r))),
                    Err(e) => Err(e),
                },
                Err(e) => Err(e),
            },
            None => parse(funcs, radians, s, level + 1, env, fuel),
        }
    } else if s.len() == 1 {
        match s[0] {
            TokenV::Number(v) => Ok(ExprV::Leaf(v)),
            TokenV::Variable(_) => Err(CalcError::UnknownVariable),
            TokenV::FunctionArg(k) => if k < env.len() {
                Ok(env[k as int])
            } else {
                Err(CalcError::Unsupported)
            },
            _ => Err(CalcError::Unsupported),
        }
    } else if s[0] is LeftBracket && s.last() is RightBracket && balanced(s.subrange(1, s.len() - 1)) {
        parse(funcs, radians, s.subrange(1, s.len() - 1), 0, env, fuel)
    } else if s.len() >= 3 && s[0] is FunctionName && s[1] is LeftBracket && s.last() is RightBracket
        && balanced(s.subrange(2, s.len() - 1)) {
        let name = s[0]->FunctionName_0;
        let inner = s.subrange(2, s.len() - 1);
        let args = if inner.len() == 0 {
            Ok(Seq::<ExprV>::empty())
        } else {
            parse_args(funcs, radians, inner, 0, 0, env, fuel)
        };
        match args {
            Err(e) => Err(e),
            Ok(vals) => match builtin_of(name) {
                Some(b) => if vals.len() != 1 {
                    Err(CalcError::IncorrectArgumentCount)
                } else {
                    Ok(ExprV::Call(b, radians, Box::new(vals[0])))
                },
                None => if !funcs.contains_key(name) {
                    Err(CalcError::UnknownFunction)
                } else if funcs[name].arg_count != vals.len() {
                    Err(CalcError::IncorrectArgumentCount)
                } else if fuel == 0 {
                    Err(CalcError::TooDeep)
                } else {
                    parse(funcs, radians, funcs[name].body, 0, vals, (fuel - 1) as nat)
                },
            },
        }
    } else {
        Err(CalcError::Unsupported)
    }
}

proof fn lemma_last_split_range(s: Seq<TokenV>, level: int, j: int)
    ensures
        last_split(s, level, j) matches Some(k) ==> 0 <= k < j && is_split(s, level, k),
    decreases j,
{
    if j > 0 && !is_split(s, level, j - 1) {
        lemma_last_split_range(s, level, j - 1);
    }
}

#[via_fn]
proof fn parse_decreases(
    funcs: Map<Seq<u8>, FunctionV>,
    radians: bool,
    s: Seq<TokenV>,
    level: int,
    env: Seq<ExprV>,
    fuel: nat,
) {
    lemma_last_split_range(s, level, s.len() as int);
}


fn op_at(t: &Token, level: u8) -> (r: Option<BinOp>)
    ensures
        r == split_op(level as int, t@),
{
    match t {
        Token::Addition => if level == 0 { Some(BinOp::Add) } else { None },
        Token::Subtraction => if level == 0 { Some(BinOp::Sub) } else { None },
        Token::Multiplication => if level == 1 { Some(BinOp::Mul) } else { None },
        Token::Division => if level == 1 { Some(BinOp::Div) } else { None },
        Token::Modulation => if level == 1 { Some(BinOp::Mod) } else { None },
        Token::Exponentation => if level == 2 { Some(BinOp::Pow) } else { None },
        _ => None,
    }
}

proof fn lemma_depth_step(s: Seq<TokenV>, i: int)
    requires
        0 <= i < s.len(),
    ensures
        depth(s.subrange(0, i + 1)) == depth(s.subrange(0, i)) + if s[i] is LeftBracket {
            1int
        } else if s[i] is RightBracket {
            -1int
        } else {
            0int
        },
{
    assert(s.subrange(0, i + 1).drop_last() =~= s.subrange(0, i));
}

/// The index of the operator of `level` at which the tokens from `lo` to `hi`
/// split: the last one outside all brackets.
fn find_last_split(toks: &Vec<Token>, lo: usize, hi: usize, level: u8) -> (r: Option<usize>)
    requires
        lo <= hi <= toks@.len(),
    ensures
        ({
            let s = view_seq(toks@).subrange(lo as int, hi as int);
            match r {
                Some(k) => lo <= k < hi && last_split(s, level as int, s.len() as int) == Some(k - lo),
                None => last_split(s, level as int, s.len() as int) is None,
            }
        }),
{
    let ghost s = view_seq(toks@).subrange(lo as int, hi as int);
    let mut opens: usize = 0;
    let mut closes: usize = 0;
    let mut found: Option<usize> = None;
    let mut i: usize = lo;
    while i < hi
        invariant
            lo <= i <= hi <= toks@.len(),
            s == view_seq(toks@).subrange(lo as int, hi as int),
            opens <= i - lo,
            closes <= i - lo,
            opens - closes == depth(s.subrange(0, i - lo)),
            match found {
                Some(k) => lo <= k < i && last_split(s, level as int, i - lo) == Some(k - lo),
                None => last_split(s, level as int, i - lo) is None,
            },
        decreases hi - i,
    {
        proof {
            lemma_depth_step(s, i - lo);
            assert(s[i - lo] == toks@[i as int]@);
        }
        if opens == closes && op_at(&toks[i], level).is_some() {
            found = Some(i);
        }
        if matches!(toks[i], Token::LeftBracket) {
            opens = opens + 1;
        } else if matches!(toks[i], Token::RightBracket) {
            closes = closes + 1;
        }
        i = i + 1;
    }
    found
}

/// The view of the user functions that `funcs` holds.
pub open spec fn funcs_view(funcs: &NameMap<Function>) -> Map<Seq<u8>, FunctionV> {
    funcs.view().map_values(|f: Function| f@)
}

/// How deep user functions may call one another.
pub const MAX_CALL_DEPTH: usize = 64;

pub open spec fn join_values(p: Seq<ExprV>, r: Result<Seq<ExprV>, CalcError>) -> Result<Seq<ExprV>, CalcError> {
    match r {
        Ok(x) => Ok(p + x),
        Err(e) => Err(e),
    }
}

impl Expr {
    pub fn duplicate(&self) -> (r: Expr)
        ensures
            r@ == self@,
        decreases self,
    {
        match self {
            Expr::Leaf(v) => Expr::Leaf(v.duplicate()),
            Expr::Binary(op, l, r) => {
                let a = (**l).duplicate();
                let b = (**r).duplicate();
                let e = Expr::Binary(*op, Box::new(a), Box::new(b));
                proof {
                    assert(e@ == ExprV::Binary(*op, Box::new(a@), Box::new(b@)));
                }
                e
            },
            Expr::Call(f, rad, x) => {
                let a = (**x).duplicate();
                let e = Expr::Call(*f, *rad, Box::new(a));
                proof {
                    assert(e@ == ExprV::Call(*f, *rad, Box::new(a@)));
                }
                e
            },
        }
    }
}

proof fn lemma_exprs_view_push(v: Seq<Expr>, e: Expr)
    ensures
        exprs_view(v.push(e)) == exprs_view(v).push(e@),
{
    assert(exprs_view(v.push(e)) =~= exprs_view(v).push(e@));
}

/// Evaluates each argument expression among the tokens of `toks` from `lo`
/// to `hi`, the inside of a call's brackets.
fn parse_call_args(
    funcs: &NameMap<Function>,
    radians: bool,
    toks: &Vec<Token>,
    lo: usize,
    hi: usize,
    env: &Vec<Expr>,
    fuel: usize,
) -> (r: Result<Vec<Expr>, CalcError>)
    requires
        funcs.wf(),
        lo < hi <= toks@.len(),
    ensures
        ({
            let spec_r = parse_args(funcs_view(funcs), radians, view_seq(toks@).subrange(lo as int, hi as int), 0, 0,
                exprs_view(env@), fuel as nat);
            match r {
                Ok(v) => spec_r == Ok::<Seq<ExprV>, CalcError>(exprs_view(v@)),
                Err(e) => spec_r == Err::<Seq<ExprV>, CalcError>(e),
            }
        }),
    decreases fuel, hi - lo, 4int,
{
    let ghost tv = view_seq(toks@);
    let ghost s = tv.subrange(lo as int, hi as int);
    let ghost fv = funcs_view(funcs);
    let ghost ev = exprs_view(env@);
    let mut out: Vec<Expr> = Vec::new();
    let mut opens: usize = 0;
    let mut closes: usize = 0;
    let mut start: usize = lo;
    let mut i: usize = lo;
    proof {
        assert(exprs_view(out@) =~= Seq::<ExprV>::empty());
        match parse_args(fv, radians, s, 0, 0, ev, fuel as nat) {
            Ok(x) => assert(Seq::<ExprV>::empty() + x =~= x),
            Err(_) => {},
        }
    }
    while i < hi
        invariant
            lo <= start <= i <= hi <= toks@.len(),
            lo < hi,
            funcs.wf(),
            tv == view_seq(toks@),
            s == tv.subrange(lo as int, hi as int),
            fv == funcs_view(funcs),
            ev == exprs_view(env@),
            opens <= i - lo,
            closes <= i - lo,
            opens - closes == depth(s.subrange(0, i - lo)),
            parse_args(fv, radians, s, 0, 0, ev, fuel as nat)
                == join_values(exprs_view(out@), parse_args(fv, radians, s, start - lo, i - lo, ev, fuel as nat)),
        decreases hi - i,
    {
        proof {
            lemma_depth_step(s, i - lo);
            assert(s[i - lo] == toks@[i as int]@);
        }
        if opens == closes && matches!(toks[i], Token::Comma) {
            proof {
                assert(tv.subrange(start as int, i as int) =~= s.subrange(start - lo, i - lo));
            }
            let e = match parse_range(funcs, radians, toks, start, i, 0, env, fuel) {
                Ok(e) => e,
                Err(err) => {
                    return Err(err);
                },
            };
            let ghost before = exprs_view(out@);
            proof {
                lemma_exprs_view_push(out@, e);
                match parse_args(fv, radians, s, i + 1 - lo, i + 1 - lo, ev, fuel as nat) {
                    Ok(x) => assert(before + (seq![e@] + x) =~= before.push(e@) + x),
                    Err(_) => {},
                }
            }
            out.push(e);
            start = i + 1;
        } else {
            if matches!(toks[i], Token::LeftBracket) {
                opens = opens + 1;
            } else if matches!(toks[i], Token::RightBracket) {
                closes = closes + 1;
            }
        }
        i = i + 1;
    }
    proof {
        assert(tv.subrange(start as int, hi as int) =~= s.subrange(start - lo, s.len() as int));
    }
    let e = match parse_range(funcs, radians, toks, start, hi, 0, env, fuel) {
        Ok(e) => e,
        Err(err) => {
            return Err(err);
        },
    };
    let ghost before = exprs_view(out@);
    proof {
        lemma_exprs_view_push(out@, e);
        assert(before + seq![e@] =~= before.push(e@));
    }
    out.push(e);
    Ok(out)
}

/// Reduces the resolved tokens of `toks` from `lo` to `hi` at precedence
/// `level` to an expression; `env` holds the values of the arguments of the
/// user function whose body is being read.
pub fn parse_range(
    funcs: &NameMap<Function>,
    radians: bool,
    toks: &Vec<Token>,
    lo: usize,
    hi: usize,
    level: u8,
    env: &Vec<Expr>,
    fuel: usize,
) -> (r: Result<Expr, CalcError>)
    requires
        funcs.wf(),
        lo <= hi <= toks@.len(),
        level <= 3,
    ensures
        result_view(r) == parse(funcs_view(funcs), radians, view_seq(toks@).subrange(lo as int, hi as int), level as int,
            exprs_view(env@), fuel as nat),
    decreases fuel, hi - lo, 3 - level,
{
    let ghost s = view_seq(toks@).subrange(lo as int, hi as int);
    let ghost fv = funcs_view(funcs);
    let ghost ev = exprs_view(env@);
    if lo == hi {
        let zero_digit: Vec<u8> = vec![48u8];
        let e = Expr::Leaf(Value::Literal { negative: false, digits: zero_digit });
        proof {
            assert(zero_digit@ =~= seq![48u8]);
        }
        return Ok(e);
    }
    if level < 3 {
        match find_last_split(toks, lo, hi, level) {
            Some(k) => {
                proof {
                    assert(s.subrange(0, k - lo) =~= view_seq(toks@).subrange(lo as int, k as int));
                    assert(s.subrange(k - lo + 1, s.len() as int) =~= view_seq(toks@).subrange(k + 1, hi as int));
                    assert(s[k - lo] == toks@[k as int]@);
                    lemma_last_split_range(s, level as int, s.len() as int);
                }
                let l = match parse_range(funcs, radians, toks, lo, k, level, env, fuel) {
                    Ok(l) => l,
                    Err(e) => return Err(e),
                };
                let r = match parse_range(funcs, radians, toks, k + 1, hi, level + 1, env, fuel) {
                    Ok(r) => r,
                    Err(e) => return Err(e),
                };
                let op = match op_at(&toks[k], level) {
                    Some(op) => op,
                    None => BinOp::Add,
                };
                let e = Expr::Binary(op, Box::new(l), Box::new(r));
                proof {
                    assert(e@ == ExprV::Binary(op, Box::new(l@), Box::new(r@)));
                }
                return Ok(e);
            },
            None => {
                return parse_range(funcs, radians, toks, lo, hi, level + 1, env, fuel);
            },
        }
    }
    proof {
        assert(s[0] == toks@[lo as int]@);
        assert(s.last() == toks@[hi - 1]@);
    }
    if hi - lo == 1 {
        return match &toks[lo] {
            Token::Number(v) => Ok(Expr::Leaf(v.duplicate())),
            Token::Variable(_) => Err(CalcError::UnknownVariable),
            Token::FunctionArg(k) => {
                if *k < env.len() {
                    Ok(env[*k].duplicate())
                } else {
                    Err(CalcError::Unsupported)
                }
            },
            _ => Err(CalcError::Unsupported),
        };
    }
    if matches!(toks[lo], Token::LeftBracket) && matches!(toks[hi - 1], Token::RightBracket)
        && brackets_balanced(toks, lo + 1, hi - 1) {
        proof {
            assert(s.subrange(1, s.len() - 1) =~= view_seq(toks@).subrange(lo + 1, hi - 1));
        }
        return parse_range(funcs, radians, toks, lo + 1, hi - 1, 0, env, fuel);
    }
    proof {
        assert(s.subrange(1, s.len() - 1) =~= view_seq(toks@).subrange(lo + 1, hi - 1));
    }
    if hi - lo >= 3 {
        proof {
            assert(s[1] == toks@[lo + 1]@);
            assert(s.subrange(2, s.len() - 1) =~= view_seq(toks@).subrange(lo + 2, hi - 1));
        }
        if let Token::FunctionName(name) = &toks[lo] {
            if matches!(toks[lo + 1], Token::LeftBracket) && matches!(toks[hi - 1], Token::RightBracket)
                && brackets_balanced(toks, lo + 2, hi - 1) {
                let mut vals: Vec<Expr> = Vec::new();
                if lo + 2 < hi - 1 {
                    vals = match parse_call_args(funcs, radians, toks, lo + 2, hi - 1, env, fuel) {
                        Ok(v) => v,
                        Err(e) => return Err(e),
                    };
                } else {
                    proof {
                        assert(exprs_view(vals@) =~= Seq::<ExprV>::empty());
                    }
                }
                match Builtin::from_name(name) {
                    Some(b) => {
                        if vals.len() != 1 {
                            return Err(CalcError::IncorrectArgumentCount);
                        }
                        let ghost vv = exprs_view(vals@);
                        let a = vals.remove(0);
                        proof {
                            assert(a@ == vv[0]);
                        }
                        return Ok(Expr::Call(b, radians, Box::new(a)));
                    },
                    None => {
                        match funcs.get(name) {
                            None => {
                                return Err(CalcError::UnknownFunction);
                            },
                            Some(f) => {
                                proof {
                                    assert(fv[name@] == f@);
                                }
                                if f.arg_count != vals.len() {
                                    return Err(CalcError::IncorrectArgumentCount);
                                }
                                if fuel == 0 {
                                    return Err(CalcError::TooDeep);
                                }
                                proof {
                                    assert(view_seq(f.func@).subrange(0, f.func@.len() as int) =~= view_seq(f.func@));
                                }
                                return parse_range(funcs, radians, &f.func, 0, f.func.len(), 0, &vals, fuel - 1);
                            },
                        }
                    },
                }
            }
        }
    }
    Err(CalcError::Unsupported)
}

/// Reduces a resolved token sequence to an expression; nothing reduces to zero.
pub fn solve(funcs: &NameMap<Function>, radians: bool, toks: &Vec<Token>) -> (r: Result<Expr, CalcError>)
    requires
        funcs.wf(),
    ensures
        result_view(r) == parse(funcs_view(funcs), radians, view_seq(toks@), 0, Seq::<ExprV>::empty(), MAX_CALL_DEPTH as nat),
{
    let env: Vec<Expr> = Vec::new();
    proof {
        assert(view_seq(toks@).subrange(0, toks@.len() as int) =~= view_seq(toks@));
        assert(exprs_view(env@) =~= Seq::<ExprV>::empty());
    }
    parse_range(funcs, radians, toks, 0, toks.len(), 0, &env, MAX_CALL_DEPTH)
}


/// The bracket at index `i` of `s` closes a bracket opened just before `s`.
pub open spec fn closes_outer(s: Seq<TokenV>, i: int) -> bool {
    1 + depth(s.subrange(0, i + 1)) == 0
}

/// The index of the right bracket that matches a left bracket standing just
/// before `token_list`, or 0 where none does.
pub fn get_matching_bracket_index(token_list: &[Token]) -> (r: usize)
    ensures
        ({
            let s = view_seq(token_list@);
            &&& (forall|j: int| 0 <= j < s.len() ==> !closes_outer(s, j)) ==> r == 0
            &&& (exists|j: int| 0 <= j < s.len() && closes_outer(s, j)) ==> {
                &&& r < s.len()
                &&& closes_outer(s, r as int)
                &&& forall|j: int| 0 <= j < r ==> !closes_outer(s, j)
            }
        }),
{
    let ghost s = view_seq(token_list@);
    let n = token_list.len();
    let mut opens: usize = 0;
    let mut closes: usize = 0;
    let mut i: usize = 0;
    while i < n
        invariant
            0 <= i <= n == token_list@.len(),
            s == view_seq(token_list@),
            opens <= i,
            closes <= opens,
            opens - closes == depth(s.subrange(0, i as int)),
            forall|j: int| 0 <= j < i ==> !closes_outer(s, j),
        decreases n - i,
    {
        proof {
            lemma_depth_step(s, i as int);
            assert(s[i as int] == token_list@[i as int]@);
        }
        if matches!(token_list[i], Token::LeftBracket) {
            opens = opens + 1;
        } else if matches!(token_list[i], Token::RightBracket) {
            closes = closes + 1;
        }
        if closes > opens {
            proof {
                assert(closes_outer(s, i as int));
            }
            return i;
        }
        i = i + 1;
    }
    0
}


/// Tokens without brackets sit at depth zero.
proof fn lemma_flat_depth(s: Seq<TokenV>)
    requires
        forall|i: int| 0 <= i < s.len() ==> !(#[trigger] s[i] is LeftBracket) && !(s[i] is RightBracket),
    ensures
        depth(s) == 0,
    decreases s.len(),
{
    if s.len() > 0 {
        lemma_flat_depth(s.drop_last());
    }
}

/// A lone number reads as itself at every precedence level.
pub proof fn lemma_parse_number(funcs: Map<Seq<u8>, FunctionV>, radians: bool, v: ValueV, level: int, env: Seq<ExprV>, fuel: nat)
    requires
        0 <= level <= 3,
    ensures
        parse(funcs, radians, seq![TokenV::Number(v)], level, env, fuel) == Ok::<ExprV, CalcError>(ExprV::Leaf(v)),
    decreases 3 - level,
{
    let s = seq![TokenV::Number(v)];
    if level < 3 {
        assert(!is_split(s, level, 0));
        assert(last_split(s, level, 0) is None);
        assert(last_split(s, level, 1) is None);
        lemma_parse_number(funcs, radians, v, level + 1, env, fuel);
    }
}

pub open spec fn leaf(v: ValueV) -> Box<ExprV> {
    Box::new(ExprV::Leaf(v))
}

/// A product binds tighter than a sum: `a + b * c` is `a + (b * c)`.
pub proof fn lemma_product_before_sum(funcs: Map<Seq<u8>, FunctionV>, radians: bool, a: ValueV, b: ValueV, c: ValueV, env: Seq<ExprV>, fuel: nat)
    ensures
        parse(funcs, radians, seq![TokenV::Number(a), TokenV::Addition, TokenV::Number(b), TokenV::Multiplication, TokenV::Number(c)], 0, env, fuel)
            == Ok::<ExprV, CalcError>(ExprV::Binary(BinOp::Add, leaf(a), Box::new(ExprV::Binary(BinOp::Mul, leaf(b), leaf(c))))),
{
    reveal_with_fuel(last_split, 8);
    let s = seq![TokenV::Number(a), TokenV::Addition, TokenV::Number(b), TokenV::Multiplication, TokenV::Number(c)];
    assert forall|k: int| 0 <= k <= 5 implies depth(#[trigger] s.subrange(0, k)) == 0 by {
        lemma_flat_depth(s.subrange(0, k));
    }
    assert(!is_split(s, 0, 4));
    assert(!is_split(s, 0, 3));
    assert(!is_split(s, 0, 2));
    assert(is_split(s, 0, 1));
    assert(last_split(s, 0, 5) == Some(1int));
    assert(s.subrange(0, 1) =~= seq![TokenV::Number(a)]);
    lemma_parse_number(funcs, radians, a, 0, env, fuel);
    let r = s.subrange(2, 5);
    assert(r =~= seq![TokenV::Number(b), TokenV::Multiplication, TokenV::Number(c)]);
    assert forall|k: int| 0 <= k <= 3 implies depth(#[trigger] r.subrange(0, k)) == 0 by {
        lemma_flat_depth(r.subrange(0, k));
    }
    assert(!is_split(r, 1, 2));
    assert(is_split(r, 1, 1));
    assert(last_split(r, 1, 3) == Some(1int));
    assert(r.subrange(0, 1) =~= seq![TokenV::Number(b)]);
    assert(r.subrange(2, 3) =~= seq![TokenV::Number(c)]);
    lemma_parse_number(funcs, radians, b, 1, env, fuel);
    lemma_parse_number(funcs, radians, c, 2, env, fuel);
    assert(parse(funcs, radians, r, 1, env, fuel) == Ok::<ExprV, CalcError>(ExprV::Binary(BinOp::Mul, leaf(b), leaf(c))));
    assert(parse(funcs, radians, s.subrange(0, 1), 0, env, fuel) == Ok::<ExprV, CalcError>(ExprV::Leaf(a)));
}

/// Powers group from the left: `a ^ b ^ c` is `(a ^ b) ^ c`.
pub proof fn lemma_powers_group_left(funcs: Map<Seq<u8>, FunctionV>, radians: bool, a: ValueV, b: ValueV, c: ValueV, env: Seq<ExprV>, fuel: nat)
    ensures
        parse(funcs, radians, seq![TokenV::Number(a), TokenV::Exponentation, TokenV::Number(b), TokenV::Exponentation, TokenV::Number(c)], 0, env, fuel)
            == Ok::<ExprV, CalcError>(ExprV::Binary(BinOp::Pow, Box::new(ExprV::Binary(BinOp::Pow, leaf(a), leaf(b))), leaf(c))),
{
    reveal_with_fuel(last_split, 8);
    let s = seq![TokenV::Number(a), TokenV::Exponentation, TokenV::Number(b), TokenV::Exponentation, TokenV::Number(c)];
    assert forall|k: int| 0 <= k <= 5 implies depth(#[trigger] s.subrange(0, k)) == 0 by {
        lemma_flat_depth(s.subrange(0, k));
    }
    assert forall|level: int, k: int| 0 <= level < 2 && 0 <= k < 5 implies !is_split(s, level, k) by {}
    assert forall|level: int, j: int| 0 <= level < 2 && 0 <= j <= 5 implies last_split(s, level, j) is None by {
        lemma_no_split(s, level, j);
    }
    assert(!is_split(s, 2, 4));
    assert(is_split(s, 2, 3));
    assert(last_split(s, 2, 5) == Some(3int));
    let l = s.subrange(0, 3);
    assert(l =~= seq![TokenV::Number(a), TokenV::Exponentation, TokenV::Number(b)]);
    assert forall|k: int| 0 <= k <= 3 implies depth(#[trigger] l.subrange(0, k)) == 0 by {
        lemma_flat_depth(l.subrange(0, k));
    }
    assert(!is_split(l, 2, 2));
    assert(is_split(l, 2, 1));
    assert(last_split(l, 2, 3) == Some(1int));
    assert(l.subrange(0, 1) =~= seq![TokenV::Number(a)]);
    assert(l.subrange(2, 3) =~= seq![TokenV::Number(b)]);
    assert(s.subrange(4, 5) =~= seq![TokenV::Number(c)]);
    lemma_parse_number(funcs, radians, a, 2, env, fuel);
    lemma_parse_number(funcs, radians, b, 3, env, fuel);
    lemma_parse_number(funcs, radians, c, 3, env, fuel);
    assert(parse(funcs, radians, l, 2, env, fuel) == Ok::<ExprV, CalcError>(ExprV::Binary(BinOp::Pow, leaf(a), leaf(b))));
    assert(parse(funcs, radians, s, 2, env, fuel) == Ok::<ExprV, CalcError>(
        ExprV::Binary(BinOp::Pow, Box::new(ExprV::Binary(BinOp::Pow, leaf(a), leaf(b))), leaf(c)),
    ));
    assert(parse(funcs, radians, s, 1, env, fuel) == parse(funcs, radians, s, 2, env, fuel));
}

proof fn lemma_no_split(s: Seq<TokenV>, level: int, j: int)
    requires
        forall|k: int| 0 <= k < j ==> !is_split(s, level, k),
    ensures
        last_split(s, level, j) is None,
    decreases j,
{
    if j > 0 {
        lemma_no_split(s, level, j - 1);
    }
}

/// Brackets group first: in `(a + b) * c` the sum is an operand of the
/// product, although a product alone binds tighter than a sum.
pub proof fn lemma_brackets_group(funcs: Map<Seq<u8>, FunctionV>, radians: bool, a: ValueV, b: ValueV, c: ValueV, env: Seq<ExprV>, fuel: nat)
    ensures
        parse(funcs, radians, seq![TokenV::LeftBracket, TokenV::Number(a), TokenV::Addition, TokenV::Number(b), TokenV::RightBracket,
            TokenV::Multiplication, TokenV::Number(c)], 0, env, fuel)
            == Ok::<ExprV, CalcError>(ExprV::Binary(BinOp::Mul, Box::new(ExprV::Binary(BinOp::Add, leaf(a), leaf(b))), leaf(c))),
{
    reveal_with_fuel(last_split, 8);
    let s = seq![TokenV::LeftBracket, TokenV::Number(a), TokenV::Addition, TokenV::Number(b), TokenV::RightBracket,
        TokenV::Multiplication, TokenV::Number(c)];
    let inner = seq![TokenV::Number(a), TokenV::Addition, TokenV::Number(b)];
    assert forall|k: int| 0 <= k <= 3 implies depth(#[trigger] inner.subrange(0, k)) == 0 by {
        lemma_flat_depth(inner.subrange(0, k));
    }
    assert(depth(s.subrange(0, 0)) == 0);
    assert(s.subrange(0, 1).drop_last() =~= s.subrange(0, 0));
    assert(depth(s.subrange(0, 1)) == 1);
    assert(s.subrange(0, 2).drop_last() =~= s.subrange(0, 1));
    assert(depth(s.subrange(0, 2)) == 1);
    assert(s.subrange(0, 3).drop_last() =~= s.subrange(0, 2));
    assert(depth(s.subrange(0, 3)) == 1);
    assert(s.subrange(0, 4).drop_last() =~= s.subrange(0, 3));
    assert(depth(s.subrange(0, 4)) == 1);
    assert(s.subrange(0, 5).drop_last() =~= s.subrange(0, 4));
    assert(depth(s.subrange(0, 5)) == 0);
    assert forall|k: int| 0 <= k < 7 implies !is_split(s, 0, k) by {}
    lemma_no_split(s, 0, 7);
    assert(!is_split(s, 1, 6));
    assert(is_split(s, 1, 5));
    assert(last_split(s, 1, 7) == Some(5int));
    let l = s.subrange(0, 5);
    assert(l =~= seq![TokenV::LeftBracket, TokenV::Number(a), TokenV::Addition, TokenV::Number(b), TokenV::RightBracket]);
    assert forall|k: int| 0 <= k <= 5 implies #[trigger] l.subrange(0, k) == s.subrange(0, k) by {
        assert(l.subrange(0, k) =~= s.subrange(0, k));
    }
    assert forall|level: int, k: int| 1 <= level < 3 && 0 <= k < 5 implies !is_split(l, level, k) by {}
    lemma_no_split(l, 1, 5);
    lemma_no_split(l, 2, 5);
    assert(l.subrange(1, 4) =~= inner);
    assert(balanced(inner));
    assert(!is_split(inner, 0, 2));
    assert(is_split(inner, 0, 1));
    assert(last_split(inner, 0, 3) == Some(1int));
    assert(inner.subrange(0, 1) =~= seq![TokenV::Number(a)]);
    assert(inner.subrange(2, 3) =~= seq![TokenV::Number(b)]);
    assert(s.subrange(6, 7) =~= seq![TokenV::Number(c)]);
    lemma_parse_number(funcs, radians, a, 0, env, fuel);
    lemma_parse_number(funcs, radians, b, 1, env, fuel);
    lemma_parse_number(funcs, radians, c, 2, env, fuel);
    let sum = ExprV::Binary(BinOp::Add, leaf(a), leaf(b));
    assert(parse(funcs, radians, inner, 0, env, fuel) == Ok::<ExprV, CalcError>(sum));
    assert(parse(funcs, radians, l, 3, env, fuel) == Ok::<ExprV, CalcError>(sum));
    assert(parse(funcs, radians, l, 2, env, fuel) == Ok::<ExprV, CalcError>(sum));
    assert(parse(funcs, radians, l, 1, env, fuel) == Ok::<ExprV, CalcError>(sum));
    assert(parse(funcs, radians, s, 1, env, fuel) == Ok::<ExprV, CalcError>(ExprV::Binary(BinOp::Mul, Box::new(sum), leaf(c))));
}


/// A built-in function applied to a number carries the angle unit in force:
/// `sin(v)` reads as the sine of `v` in radians or in degrees as `radians` says.
pub proof fn lemma_call_carries_angle_unit(
    funcs: Map<Seq<u8>, FunctionV>,
    radians: bool,
    name: Seq<u8>,
    v: ValueV,
    env: Seq<ExprV>,
    fuel: nat,
)
    requires
        builtin_of(name) is Some,
    ensures
        parse(funcs, radians, seq![TokenV::FunctionName(name), TokenV::LeftBracket, TokenV::Number(v), TokenV::RightBracket], 0, env, fuel)
            == Ok::<ExprV, CalcError>(ExprV::Call(builtin_of(name)->0, radians, leaf(v))),
{
    reveal_with_fuel(last_split, 6);
    let s = seq![TokenV::FunctionName(name), TokenV::LeftBracket, TokenV::Number(v), TokenV::RightBracket];
    let inner = seq![TokenV::Number(v)];
    assert forall|level: int, k: int| 0 <= level < 3 && 0 <= k < 4 implies !is_split(s, level, k) by {}
    lemma_no_split(s, 0, 4);
    lemma_no_split(s, 1, 4);
    lemma_no_split(s, 2, 4);
    assert(s.subrange(2, 3) =~= inner);
    assert(inner.subrange(0, 0) =~= Seq::<TokenV>::empty());
    assert(inner.subrange(0, 1) =~= inner);
    lemma_flat_depth(inner);
    lemma_flat_depth(Seq::<TokenV>::empty());
    assert forall|i: int| 0 <= i <= inner.len() implies depth(#[trigger] inner.subrange(0, i)) >= 0 by {
        if i == 1 {
            assert(inner.subrange(0, 1) =~= inner);
        } else {
            assert(inner.subrange(0, 0) =~= Seq::<TokenV>::empty());
        }
    }
    assert(balanced(inner));
    lemma_parse_number(funcs, radians, v, 0, env, fuel);
    assert(parse(funcs, radians, inner.subrange(0, 1), 0, env, fuel) == Ok::<ExprV, CalcError>(ExprV::Leaf(v)));
    assert(parse_args(funcs, radians, inner, 0, 1, env, fuel) == Ok::<Seq<ExprV>, CalcError>(seq![ExprV::Leaf(v)]));
    assert(parse_args(funcs, radians, inner, 0, 0, env, fuel) == Ok::<Seq<ExprV>, CalcError>(seq![ExprV::Leaf(v)]));
    let call = ExprV::Call(builtin_of(name)->0, radians, leaf(v));
    assert(parse(funcs, radians, s, 3, env, fuel) == Ok::<ExprV, CalcError>(call));
    assert(parse(funcs, radians, s, 2, env, fuel) == Ok::<ExprV, CalcError>(call));
    assert(parse(funcs, radians, s, 1, env, fuel) == Ok::<ExprV, CalcError>(call));
}

} // verus!

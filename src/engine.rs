use vstd::prelude::*;
use crate::error::CalcError;
use crate::function::{Function, FunctionV, create_function, definition};
use crate::names::NameMap;
use crate::solve::{Expr, ExprV, MAX_CALL_DEPTH, funcs_view, lemma_parse_number, parse, solve};
use crate::token::{Token, TokenV, Value, ValueV, tokenize, tokenize_spec, view_seq, lemma_view_seq_push};
use crate::function::builtin_of;
use crate::validate::{balanced, is_valid_lhs_function, lhs_function_check, validate_token_list, validation};

verus! {

/// The bits of the double nearest to pi.
pub const PI_BITS: u64 = 0x4009_21FB_5444_2D18;
/// The bits of the double nearest to Euler's number.
pub const E_BITS: u64 = 0x4005_BF0A_8B14_5769;
/// The bits of the double nearest to the full turn, two pi.
pub const TAU_BITS: u64 = 0x4019_21FB_5444_2D18;

pub open spec fn pi_name() -> Seq<u8> {
    seq![112u8, 105u8]
}

pub open spec fn e_name() -> Seq<u8> {
    seq![101u8]
}

pub open spec fn tau_name() -> Seq<u8> {
    seq![116u8, 97u8, 117u8]
}

/// The name that holds the most recent answer.
pub open spec fn ans_name() -> Seq<u8> {
    seq![97u8, 110u8, 115u8]
}

/// Bytes that carry no meaning in expression text.
pub open spec fn is_blank(c: u8) -> bool {
    c == 32u8 || c == 9u8 || c == 10u8 || c == 13u8
}

/// `s` without its blanks.
pub open spec fn strip_blanks(s: Seq<u8>) -> Seq<u8>
    decreases s.len(),
{
    if s.len() == 0 {
        seq![]
    } else if is_blank(s.last()) {
        strip_blanks(s.drop_last())
    } else {
        strip_blanks(s.drop_last()).push(s.last())
    }
}

/// Removes the blanks from `input`.
pub fn remove_blanks(input: &Vec<u8>) -> (r: Vec<u8>)
    ensures
        r@ == strip_blanks(input@),
{
    let mut r: Vec<u8> = Vec::new();
    let mut i: usize = 0;
    while i < input.len()
        invariant
            0 <= i <= input@.len(),
            r@ == strip_blanks(input@.subrange(0, i as int)),
        decreases input@.len() - i,
    {
        proof {
            assert(input@.subrange(0, i + 1).drop_last() =~= input@.subrange(0, i as int));
        }
        let c = input[i];
        if !(c == 32u8 || c == 9u8 || c == 10u8 || c == 13u8) {
            r.push(c);
        }
        i = i + 1;
    }
    proof {
        assert(input@.subrange(0, i as int) =~= input@);
    }
    r
}

/// A token with its variable replaced by the bound value; `None` for a
/// variable without a binding.
pub open spec fn resolve_token(vars: Map<Seq<u8>, u64>, t: TokenV) -> Option<TokenV> {
    match t {
        TokenV::Variable(n) => if vars.contains_key(n) {
            Some(TokenV::Number(ValueV::Bits(vars[n])))
        } else {
            None
        },
        _ => Some(t),
    }
}

/// The tokens `ts` with every variable replaced by its value.
pub open spec fn resolution(vars: Map<Seq<u8>, u64>, ts: Seq<TokenV>) -> Result<Seq<TokenV>, CalcError> {
    if forall|i: int| 0 <= i < ts.len() ==> resolve_token(vars, #[trigger] ts[i]) is Some {
        Ok(Seq::new(ts.len(), |i: int| resolve_token(vars, ts[i])->0))
    } else {
        Err(CalcError::UnknownVariable)
    }
}

/// Replaces every variable of `tokens` with the value that `vars` binds it to.
pub fn resolve_variables(vars: &NameMap<u64>, tokens: &Vec<Token>) -> (r: Result<Vec<Token>, CalcError>)
    requires
        vars.wf(),
    ensures
        match r {
            Ok(ts) => resolution(vars.view(), view_seq(tokens@)) == Ok::<Seq<TokenV>, CalcError>(view_seq(ts@)),
            Err(e) => resolution(vars.view(), view_seq(tokens@)) == Err::<Seq<TokenV>, CalcError>(e),
        },
{
    let ghost ts = view_seq(tokens@);
    let mut out: Vec<Token> = Vec::new();
    let mut i: usize = 0;
    while i < tokens.len()
        invariant
            0 <= i <= tokens@.len(),
            ts == view_seq(tokens@),
            vars.wf(),
            forall|j: int| 0 <= j < i ==> resolve_token(vars.view(), #[trigger] ts[j]) is Some,
            view_seq(out@) =~= Seq::new(i as nat, |j: int| resolve_token(vars.view(), ts[j])->0),
        decreases tokens@.len() - i,
    {
        proof {
            assert(ts[i as int] == tokens@[i as int]@);
        }
        let t = match &tokens[i] {
            Token::Variable(n) => match vars.get(n) {
                Some(v) => Token::Number(Value::Bits(*v)),
                None => {
                    proof {
                        assert(resolve_token(vars.view(), ts[i as int]) is None);
                    }
                    return Err(CalcError::UnknownVariable);
                },
            },
            other => other.duplicate(),
        };
        proof {
            lemma_view_seq_push(out@, t);
        }
        out.push(t);
        i = i + 1;
    }
    Ok(out)
}

/// What one evaluation asks of the host, or reports.
#[derive(Debug)]
pub enum Outcome {
    /// The value of this expression is the answer.
    Value(Expr),
    /// The value of this expression is to be bound to the name.
    Assign(Vec<u8>, Expr),
    /// This function was defined.
    FunctionCreated(Function),
}

pub enum OutcomeV {
    Value(ExprV),
    Assign(Seq<u8>, ExprV),
    FunctionCreated(FunctionV),
}

impl View for Outcome {
    type V = OutcomeV;

    open spec fn view(&self) -> OutcomeV {
        match self {
            Outcome::Value(e) => OutcomeV::Value(e@),
            Outcome::Assign(n, e) => OutcomeV::Assign(n@, e@),
            Outcome::FunctionCreated(f) => OutcomeV::FunctionCreated(f@),
        }
    }
}

/// The index of the first assignment marker of `ts` from `j` on.
pub open spec fn assignment_from(ts: Seq<TokenV>, j: int) -> Option<int>
    decreases ts.len() - j,
{
    if j < 0 || j >= ts.len() {
        None
    } else if ts[j] is Assignment {
        Some(j)
    } else {
        assignment_from(ts, j + 1)
    }
}

/// The expression that the resolved form of `ts` reduces to.
pub open spec fn evaluation(
    vars: Map<Seq<u8>, u64>,
    funcs: Map<Seq<u8>, FunctionV>,
    radians: bool,
    ts: Seq<TokenV>,
) -> Result<ExprV, CalcError> {
    match resolution(vars, ts) {
        Ok(rs) => parse(funcs, radians, rs, 0, Seq::<ExprV>::empty(), MAX_CALL_DEPTH as nat),
        Err(e) => Err(e),
    }
}

/// What a left-hand side `lhs` and right-hand side `rhs` of `=` give.
pub open spec fn assignment_outcome(
    vars: Map<Seq<u8>, u64>,
    funcs: Map<Seq<u8>, FunctionV>,
    radians: bool,
    lhs: Seq<TokenV>,
    rhs: Seq<TokenV>,
) -> Result<OutcomeV, CalcError> {
    if lhs.len() == 1 {
        match lhs[0] {
            TokenV::Variable(n) => match evaluation(vars, funcs, radians, rhs) {
                Ok(x) => Ok(OutcomeV::Assign(n, x)),
                Err(e) => Err(e),
            },
            _ => Err(CalcError::InvalidAssignmentTarget),
        }
    } else {
        match lhs_function_check(lhs) {
            Err(e) => Err(e),
            Ok(_) => match definition(lhs, rhs, vars) {
                Ok(f) => Ok(OutcomeV::FunctionCreated(f)),
                Err(e) => Err(e),
            },
        }
    }
}

/// What the valid tokens `ts` give.
pub open spec fn tokens_outcome(
    vars: Map<Seq<u8>, u64>,
    funcs: Map<Seq<u8>, FunctionV>,
    radians: bool,
    ts: Seq<TokenV>,
) -> Result<OutcomeV, CalcError> {
    match assignment_from(ts, 0) {
        None => match evaluation(vars, funcs, radians, ts) {
            Ok(x) => Ok(OutcomeV::Value(x)),
            Err(e) => Err(e),
        },
        Some(k) => assignment_outcome(vars, funcs, radians, ts.subrange(0, k), ts.subrange(k + 1, ts.len() as int)),
    }
}

/// What evaluating the text `s` gives under the bindings `vars` and `funcs`.
pub open spec fn outcome(
    vars: Map<Seq<u8>, u64>,
    funcs: Map<Seq<u8>, FunctionV>,
    radians: bool,
    s: Seq<u8>,
) -> Result<OutcomeV, CalcError> {
    match tokenize_spec(strip_blanks(s)) {
        Err(e) => Err(e),
        Ok(ts) => match validation(ts) {
            Err(e) => Err(e),
            Ok(_) => tokens_outcome(vars, funcs, radians, ts),
        },
    }
}

pub open spec fn outcome_view(r: Result<Outcome, CalcError>) -> Result<OutcomeV, CalcError> {
    match r {
        Ok(o) => Ok(o@),
        Err(e) => Err(e),
    }
}


fn find_assignment(ts: &Vec<Token>) -> (r: Option<usize>)
    ensures
        match r {
            Some(k) => k < ts@.len() && assignment_from(view_seq(ts@), 0) == Some(k as int),
            None => assignment_from(view_seq(ts@), 0) is None,
        },
{
    let ghost tv = view_seq(ts@);
    let mut i: usize = 0;
    while i < ts.len()
        invariant
            0 <= i <= ts@.len(),
            tv == view_seq(ts@),
            assignment_from(tv, 0) == assignment_from(tv, i as int),
        decreases ts@.len() - i,
    {
        proof {
            assert(tv[i as int] == ts@[i as int]@);
        }
        if matches!(ts[i], Token::Assignment) {
            return Some(i);
        }
        i = i + 1;
    }
    None
}

fn copy_token_range(v: &Vec<Token>, lo: usize, hi: usize) -> (r: Vec<Token>)
    requires
        lo <= hi <= v@.len(),
    ensures
        view_seq(r@) == view_seq(v@).subrange(lo as int, hi as int),
{
    let mut r: Vec<Token> = Vec::new();
    let mut i: usize = lo;
    while i < hi
        invariant
            lo <= i <= hi <= v@.len(),
            view_seq(r@) =~= view_seq(v@).subrange(lo as int, i as int),
        decreases hi - i,
    {
        let t = v[i].duplicate();
        proof {
            lemma_view_seq_push(r@, t);
        }
        r.push(t);
        i = i + 1;
    }
    r
}

/// The long-lived state of the calculator: variable and function bindings,
/// the previous answer and the angle unit.
pub struct CalcEngine {
    /// The bits of the most recent answer.
    pub prev_answer: u64,
    pub variables: NameMap<u64>,
    pub functions: NameMap<Function>,
    /// Set when angles are in radians, clear when in degrees.
    pub use_radians: bool,
}

impl CalcEngine {
    pub open spec fn wf(&self) -> bool {
        self.variables.wf() && self.functions.wf()
    }

    /// An engine in radians with pi, e and tau bound and no functions.
    pub fn new() -> (r: CalcEngine)
        ensures
            r.wf(),
            r.variables.view() == Map::<Seq<u8>, u64>::empty().insert(pi_name(), PI_BITS).insert(e_name(), E_BITS).insert(
                tau_name(),
                TAU_BITS,
            ),
            r.functions.view() == Map::<Seq<u8>, Function>::empty(),
            r.use_radians,
            r.prev_answer == 0,
    {
        let mut variables: NameMap<u64> = NameMap::new();
        let pi: Vec<u8> = vec![112u8, 105u8];
        let e: Vec<u8> = vec![101u8];
        let tau: Vec<u8> = vec![116u8, 97u8, 117u8];
        proof {
            assert(pi@ =~= pi_name());
            assert(e@ =~= e_name());
            assert(tau@ =~= tau_name());
        }
        variables.insert(pi, PI_BITS);
        variables.insert(e, E_BITS);
        variables.insert(tau, TAU_BITS);
        CalcEngine { prev_answer: 0, variables, functions: NameMap::new(), use_radians: true }
    }

    /// Replaces every variable of `tokens` with its bound value.
    pub fn resolve_variables(&self, tokens: &Vec<Token>) -> (r: Result<Vec<Token>, CalcError>)
        requires
            self.wf(),
        ensures
            match r {
                Ok(ts) => resolution(self.variables.view(), view_seq(tokens@)) == Ok::<Seq<TokenV>, CalcError>(view_seq(ts@)),
                Err(e) => resolution(self.variables.view(), view_seq(tokens@)) == Err::<Seq<TokenV>, CalcError>(e),
            },
    {
        resolve_variables(&self.variables, tokens)
    }

    fn evaluate_tokens(&self, tokens: &Vec<Token>) -> (r: Result<Expr, CalcError>)
        requires
            self.wf(),
        ensures
            match r {
                Ok(x) => evaluation(self.variables.view(), funcs_view(&self.functions), self.use_radians, view_seq(tokens@))
                    == Ok::<ExprV, CalcError>(x@),
                Err(e) => evaluation(self.variables.view(), funcs_view(&self.functions), self.use_radians, view_seq(tokens@))
                    == Err::<ExprV, CalcError>(e),
            },
    {
        match self.resolve_variables(tokens) {
            Ok(resolved) => solve(&self.functions, self.use_radians, &resolved),
            Err(e) => Err(e),
        }
    }

    /// Handles `lhs = rhs`: evaluates the value of a variable, or defines a
    /// function and stores it.
    fn eval_assignment(&mut self, lhs: &Vec<Token>, rhs: &Vec<Token>) -> (r: Result<Outcome, CalcError>)
        requires
            old(self).wf(),
        ensures
            final(self).wf(),
            outcome_view(r) == assignment_outcome(
                old(self).variables.view(),
                funcs_view(&old(self).functions),
                old(self).use_radians,
                view_seq(lhs@),
                view_seq(rhs@),
            ),
            final(self).variables == old(self).variables,
            final(self).use_radians == old(self).use_radians,
            final(self).prev_answer == old(self).prev_answer,
            match r {
                Ok(Outcome::FunctionCreated(f)) => funcs_view(&final(self).functions) == funcs_view(&old(self).functions).insert(f.name@, f@),
                _ => final(self).functions == old(self).functions,
            },
    {
        if lhs.len() == 1 {
            proof {
                assert(view_seq(lhs@)[0] == lhs@[0]@);
            }
            match &lhs[0] {
                Token::Variable(name) => {
                    match self.evaluate_tokens(rhs) {
                        Ok(x) => Ok(Outcome::Assign(name.clone(), x)),
                        Err(e) => Err(e),
                    }
                },
                _ => Err(CalcError::InvalidAssignmentTarget),
            }
        } else {
            match is_valid_lhs_function(lhs) {
                Ok(()) => {},
                Err(e) => return Err(e),
            }
            match create_function(lhs, rhs, &self.variables) {
                Ok(f) => {
                    let stored = f.duplicate();
                    let name = f.name.clone();
                    let ghost before = self.functions;
                    self.functions.insert(name, stored);
                    proof {
                        assert(funcs_view(&self.functions) =~= funcs_view(&before).insert(f.name@, f@));
                    }
                    Ok(Outcome::FunctionCreated(f))
                },
                Err(e) => Err(e),
            }
        }
    }

    /// Evaluates one line of text. An expression comes back as the expression
    /// whose value is the answer, and an assignment to a variable as the name
    /// and the expression of its value: the host computes the value and hands
    /// it back through `record_answer` or `assign`. A function definition is
    /// stored at once. On an error nothing changes.
    pub fn eval(&mut self, input: &Vec<u8>) -> (r: Result<Outcome, CalcError>)
        requires
            old(self).wf(),
        ensures
            final(self).wf(),
            outcome_view(r) == outcome(old(self).variables.view(), funcs_view(&old(self).functions), old(self).use_radians, input@),
            final(self).variables == old(self).variables,
            final(self).use_radians == old(self).use_radians,
            final(self).prev_answer == old(self).prev_answer,
            match r {
                Ok(Outcome::FunctionCreated(f)) => funcs_view(&final(self).functions) == funcs_view(&old(self).functions).insert(f.name@, f@),
                _ => final(self).functions == old(self).functions,
            },
    {
        let trimmed = remove_blanks(input);
        let tokens = match tokenize(&trimmed) {
            Ok(ts) => ts,
            Err(e) => return Err(e),
        };
        match validate_token_list(&tokens) {
            Ok(()) => {},
            Err(e) => return Err(e),
        }
        match find_assignment(&tokens) {
            None => {
                match self.evaluate_tokens(&tokens) {
                    Ok(x) => Ok(Outcome::Value(x)),
                    Err(e) => Err(e),
                }
            },
            Some(k) => {
                let lhs = copy_token_range(&tokens, 0, k);
                let rhs = copy_token_range(&tokens, k + 1, tokens.len());
                self.eval_assignment(&lhs, &rhs)
            },
        }
    }

    /// Records the value of the last expression as the answer, and binds it
    /// to `ans`.
    pub fn record_answer(&mut self, bits: u64)
        requires
            old(self).wf(),
        ensures
            final(self).wf(),
            final(self).prev_answer == bits,
            final(self).variables.view() == old(self).variables.view().insert(ans_name(), bits),
            final(self).functions == old(self).functions,
            final(self).use_radians == old(self).use_radians,
    {
        self.prev_answer = bits;
        let ans: Vec<u8> = vec![97u8, 110u8, 115u8];
        proof {
            assert(ans@ =~= ans_name());
        }
        self.variables.insert(ans, bits);
    }

    /// Binds the variable `name` to the value with the bits `bits`.
    pub fn assign(&mut self, name: Vec<u8>, bits: u64)
        requires
            old(self).wf(),
        ensures
            final(self).wf(),
            final(self).variables.view() == old(self).variables.view().insert(name@, bits),
            final(self).functions == old(self).functions,
            final(self).use_radians == old(self).use_radians,
            final(self).prev_answer == old(self).prev_answer,
    {
        self.variables.insert(name, bits);
    }

    /// Chooses radians (`true`) or degrees (`false`) for the trigonometric functions.
    pub fn set_radians(&mut self, radians: bool)
        ensures
            final(self).use_radians == radians,
            final(self).variables == old(self).variables,
            final(self).functions == old(self).functions,
            final(self).prev_answer == old(self).prev_answer,
    {
        self.use_radians = radians;
    }
}


/// No token of `ts` reads the variable `n`.
pub open spec fn reads_no(ts: Seq<TokenV>, n: Seq<u8>) -> bool {
    forall|i: int| 0 <= i < ts.len() ==> ts[i] != TokenV::Variable(n)
}

/// Evaluating an expression that does not read the previous answer gives the
/// same expression again after its value was recorded, since recording binds
/// `ans` alone.
pub proof fn lemma_reevaluation_stable(
    vars: Map<Seq<u8>, u64>,
    funcs: Map<Seq<u8>, FunctionV>,
    radians: bool,
    s: Seq<u8>,
    answer: u64,
)
    requires
        tokenize_spec(strip_blanks(s)) is Ok,
        reads_no(tokenize_spec(strip_blanks(s))->Ok_0, ans_name()),
    ensures
        outcome(vars.insert(ans_name(), answer), funcs, radians, s) == outcome(vars, funcs, radians, s),
        forall|n: Seq<u8>| n != ans_name() ==> #[trigger] vars.insert(ans_name(), answer).contains_key(n) == vars.contains_key(n)
            && (vars.contains_key(n) ==> vars.insert(ans_name(), answer)[n] == vars[n]),
{
    let ts = tokenize_spec(strip_blanks(s))->Ok_0;
    let v2 = vars.insert(ans_name(), answer);
    lemma_resolution_ignores(vars, ans_name(), answer, ts);
    match assignment_from(ts, 0) {
        None => {},
        Some(k) => {
            lemma_assignment_from_range(ts, 0);
            let lhs = ts.subrange(0, k);
            let rhs = ts.subrange(k + 1, ts.len() as int);
            assert(reads_no(rhs, ans_name())) by {
                assert forall|i: int| 0 <= i < rhs.len() implies rhs[i] != TokenV::Variable(ans_name()) by {
                    assert(rhs[i] == ts[k + 1 + i]);
                }
            }
            lemma_resolution_ignores(vars, ans_name(), answer, rhs);
            lemma_definition_ignores(vars, answer, lhs, rhs);
        },
    }
}

proof fn lemma_assignment_from_range(ts: Seq<TokenV>, j: int)
    requires
        0 <= j,
    ensures
        assignment_from(ts, j) matches Some(k) ==> j <= k < ts.len(),
    decreases ts.len() - j,
{
    if 0 <= j < ts.len() && !(ts[j] is Assignment) {
        lemma_assignment_from_range(ts, j + 1);
    }
}

proof fn lemma_resolution_ignores(vars: Map<Seq<u8>, u64>, n: Seq<u8>, x: u64, ts: Seq<TokenV>)
    requires
        reads_no(ts, n),
    ensures
        resolution(vars.insert(n, x), ts) == resolution(vars, ts),
{
    let v2 = vars.insert(n, x);
    assert forall|i: int| 0 <= i < ts.len() implies #[trigger] resolve_token(v2, ts[i]) == resolve_token(vars, ts[i]) by {
        if let TokenV::Variable(m) = ts[i] {
            assert(m != n);
        }
    }
    if forall|i: int| 0 <= i < ts.len() ==> resolve_token(vars, #[trigger] ts[i]) is Some {
        assert(Seq::new(ts.len(), |i: int| resolve_token(v2, ts[i])->0) =~= Seq::new(ts.len(), |i: int| resolve_token(vars, ts[i])->0));
    } else {
        let i = choose|i: int| 0 <= i < ts.len() && !(resolve_token(vars, #[trigger] ts[i]) is Some);
        assert(!(resolve_token(v2, ts[i]) is Some));
    }
}

proof fn lemma_definition_ignores(vars: Map<Seq<u8>, u64>, x: u64, lhs: Seq<TokenV>, rhs: Seq<TokenV>)
    requires
        reads_no(rhs, ans_name()),
    ensures
        definition(lhs, rhs, vars.insert(ans_name(), x)) == definition(lhs, rhs, vars),
{
    let v2 = vars.insert(ans_name(), x);
    let params = crate::function::params_of(lhs);
    assert forall|i: int| 0 <= i < rhs.len() implies #[trigger] crate::function::bind_body_token(params, v2, rhs[i])
        == crate::function::bind_body_token(params, vars, rhs[i]) by {
        if let TokenV::Variable(m) = rhs[i] {
            assert(m != ans_name());
        }
    }
    if lhs.len() > 0 && lhs[0] is FunctionName {
        if exists|i: int| 0 <= i < rhs.len() && crate::function::bind_body_token(params, vars, #[trigger] rhs[i]) is None {
            let i = choose|i: int| 0 <= i < rhs.len() && crate::function::bind_body_token(params, vars, #[trigger] rhs[i]) is None;
            assert(crate::function::bind_body_token(params, v2, rhs[i]) is None);
        } else {
            assert(Seq::new(rhs.len(), |i: int| crate::function::bind_body_token(params, v2, rhs[i])->0)
                =~= Seq::new(rhs.len(), |i: int| crate::function::bind_body_token(params, vars, rhs[i])->0));
        }
    }
}


/// A value bound to a name is what the name reads afterwards.
pub proof fn lemma_binding_round_trip(
    vars: Map<Seq<u8>, u64>,
    funcs: Map<Seq<u8>, FunctionV>,
    radians: bool,
    n: Seq<u8>,
    bits: u64,
)
    ensures
        evaluation(vars.insert(n, bits), funcs, radians, seq![TokenV::Variable(n)])
            == Ok::<ExprV, CalcError>(ExprV::Leaf(ValueV::Bits(bits))),
{
    let v2 = vars.insert(n, bits);
    let ts = seq![TokenV::Variable(n)];
    assert(resolve_token(v2, ts[0]) == Some(TokenV::Number(ValueV::Bits(bits))));
    assert(Seq::new(1, |i: int| resolve_token(v2, ts[i])->0) =~= seq![TokenV::Number(ValueV::Bits(bits))]);
    lemma_parse_number(funcs, radians, ValueV::Bits(bits), 0, Seq::<ExprV>::empty(), MAX_CALL_DEPTH as nat);
}

/// A token sequence that reads a variable without a binding fails to
/// resolve, and so fails to evaluate.
pub proof fn lemma_unbound_variable_fails(
    vars: Map<Seq<u8>, u64>,
    funcs: Map<Seq<u8>, FunctionV>,
    radians: bool,
    ts: Seq<TokenV>,
    i: int,
)
    requires
        0 <= i < ts.len(),
        ts[i] matches TokenV::Variable(n) && !vars.contains_key(n),
    ensures
        resolution(vars, ts) == Err::<Seq<TokenV>, CalcError>(CalcError::UnknownVariable),
        evaluation(vars, funcs, radians, ts) == Err::<ExprV, CalcError>(CalcError::UnknownVariable),
{
    assert(resolve_token(vars, ts[i]) is None);
}

/// Tokens whose brackets do not balance never pass the grammar rules.
pub proof fn lemma_unbalanced_rejected(ts: Seq<TokenV>)
    requires
        !balanced(ts),
    ensures
        validation(ts) is Err,
{
}

/// No left-hand side that names a built-in function defines anything.
pub proof fn lemma_reserved_names_kept(ts: Seq<TokenV>)
    requires
        ts.len() > 0,
        ts[0] matches TokenV::FunctionName(n) && builtin_of(n) is Some,
    ensures
        lhs_function_check(ts) == Err::<(), CalcError>(CalcError::ReservedName),
{
}

} // verus!

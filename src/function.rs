use vstd::prelude::*;
use crate::error::CalcError;
use crate::names::NameMap;
use crate::token::{Token, TokenV, Value, ValueV, view_seq, lemma_view_seq_push};

verus! {

/// The functions that every engine knows.
#[derive(Clone, Copy, Debug, PartialEq, Eq, Structural)]
pub enum Builtin {
    Sin,
    Cos,
    Tan,
    Asin,
    Acos,
    Atan,
    Sqrt,
    /// The base-10 logarithm.
    Log,
    /// The natural logarithm.
    Ln,
}

/// The built-in function that `n` names, if any.
pub open spec fn builtin_of(n: Seq<u8>) -> Option<Builtin> {
    if n == seq![115u8, 105u8, 110u8] {
        Some(Builtin::Sin)
    } else if n == seq![99u8, 111u8, 115u8] {
        Some(Builtin::Cos)
    } else if n == seq![116u8, 97u8, 110u8] {
        Some(Builtin::Tan)
    } else if n == seq![97u8, 115u8, 105u8, 110u8] {
        Some(Builtin::Asin)
    } else if n == seq![97u8, 99u8, 111u8, 115u8] {
        Some(Builtin::Acos)
    } else if n == seq![97u8, 116u8, 97u8, 110u8] {
        Some(Builtin::Atan)
    } else if n == seq![115u8, 113u8, 114u8, 116u8] {
        Some(Builtin::Sqrt)
    } else if n == seq![108u8, 111u8, 103u8] {
        Some(Builtin::Log)
    } else if n == seq![108u8, 110u8] {
        Some(Builtin::Ln)
    } else {
        None
    }
}

fn spells3(n: &Vec<u8>, a: u8, b: u8, c: u8) -> (r: bool)
    ensures
        r == (n@ == seq![a, b, c]),
{
    let r = n.len() == 3 && n[0] == a && n[1] == b && n[2] == c;
    if r {
        assert(n@ =~= seq![a, b, c]);
    }
    r
}

fn spells4(n: &Vec<u8>, a: u8, b: u8, c: u8, d: u8) -> (r: bool)
    ensures
        r == (n@ == seq![a, b, c, d]),
{
    let r = n.len() == 4 && n[0] == a && n[1] == b && n[2] == c && n[3] == d;
    if r {
        assert(n@ =~= seq![a, b, c, d]);
    }
    r
}

impl Builtin {
    /// The built-in function that `name` names.
    pub fn from_name(name: &Vec<u8>) -> (r: Option<Builtin>)
        ensures
            r == builtin_of(name@),
    {
        if spells3(name, 115u8, 105u8, 110u8) {
            Some(Builtin::Sin)
        } else if spells3(name, 99u8, 111u8, 115u8) {
            Some(Builtin::Cos)
        } else if spells3(name, 116u8, 97u8, 110u8) {
            Some(Builtin::Tan)
        } else if spells4(name, 97u8, 115u8, 105u8, 110u8) {
            Some(Builtin::Asin)
        } else if spells4(name, 97u8, 99u8, 111u8, 115u8) {
            Some(Builtin::Acos)
        } else if spells4(name, 97u8, 116u8, 97u8, 110u8) {
            Some(Builtin::Atan)
        } else if spells4(name, 115u8, 113u8, 114u8, 116u8) {
            Some(Builtin::Sqrt)
        } else if spells3(name, 108u8, 111u8, 103u8) {
            Some(Builtin::Log)
        } else if name.len() == 2 && name[0] == 108u8 && name[1] == 110u8 {
            assert(name@ =~= seq![108u8, 110u8]);
            Some(Builtin::Ln)
        } else {
            proof {
                if name@ == seq![108u8, 110u8] {
                    assert(name@.len() == 2 && name@[0] == 108u8 && name@[1] == 110u8);
                }
            }
            None
        }
    }
}

/// A user-defined function: each formal argument of its body is a positional
/// placeholder, and every other name was bound when it was defined.
#[derive(Clone, Debug)]
pub struct Function {
    pub name: Vec<u8>,
    pub arg_count: usize,
    pub func: Vec<Token>,
}

pub struct FunctionV {
    pub name: Seq<u8>,
    pub arg_count: nat,
    pub body: Seq<TokenV>,
}

impl View for Function {
    type V = FunctionV;

    open spec fn view(&self) -> FunctionV {
        FunctionV { name: self.name@, arg_count: self.arg_count as nat, body: view_seq(self.func@) }
    }
}

impl Function {
    pub fn duplicate(&self) -> (r: Function)
        ensures
            r@ == self@,
    {
        Function { name: self.name.clone(), arg_count: self.arg_count, func: copy_tokens(&self.func) }
    }
}

pub fn copy_tokens(v: &Vec<Token>) -> (r: Vec<Token>)
    ensures
        view_seq(r@) == view_seq(v@),
{
    let mut r: Vec<Token> = Vec::new();
    let mut i: usize = 0;
    while i < v.len()
        invariant
            0 <= i <= v@.len(),
            view_seq(r@) =~= view_seq(v@).subrange(0, i as int),
        decreases v@.len() - i,
    {
        let t = v[i].duplicate();
        proof {
            lemma_view_seq_push(r@, t);
        }
        r.push(t);
        i = i + 1;
    }
    r
}

/// The names of the formal arguments of a left-hand side, in order.
pub open spec fn params_of(lhs: Seq<TokenV>) -> Seq<Seq<u8>>
    decreases lhs.len(),
{
    if lhs.len() == 0 {
        seq![]
    } else {
        match lhs.last() {
            TokenV::Variable(n) => params_of(lhs.drop_last()).push(n),
            _ => params_of(lhs.drop_last()),
        }
    }
}

/// The first position of `n` among `params`.
pub open spec fn param_index(params: Seq<Seq<u8>>, n: Seq<u8>) -> Option<int>
    decreases params.len(),
{
    if params.len() == 0 {
        None
    } else if params[0] == n {
        Some(0)
    } else {
        match param_index(params.subrange(1, params.len() as int), n) {
            Some(k) => Some(k + 1),
            None => None,
        }
    }
}

/// A body token once the formal arguments are placeholders and other names
/// are bound; `None` for a name without a binding.
pub open spec fn bind_body_token(params: Seq<Seq<u8>>, vars: Map<Seq<u8>, u64>, t: TokenV) -> Option<TokenV> {
    match t {
        TokenV::Variable(n) => match param_index(params, n) {
            Some(k) => Some(TokenV::FunctionArg(k as usize)),
            None => if vars.contains_key(n) {
                Some(TokenV::Number(ValueV::Bits(vars[n])))
            } else {
                None
            },
        },
        _ => Some(t),
    }
}

/// The function that `lhs = rhs` defines under the variables `vars`.
pub open spec fn definition(lhs: Seq<TokenV>, rhs: Seq<TokenV>, vars: Map<Seq<u8>, u64>) -> Result<FunctionV, CalcError> {
    let params = params_of(lhs);
    if lhs.len() == 0 || !(lhs[0] is FunctionName) {
        Err(CalcError::NotAFunction)
    } else if exists|i: int| 0 <= i < rhs.len() && bind_body_token(params, vars, #[trigger] rhs[i]) is None {
        Err(CalcError::InvalidVariables)
    } else {
        Ok(FunctionV {
            name: lhs[0]->FunctionName_0,
            arg_count: params.len(),
            body: Seq::new(rhs.len(), |i: int| bind_body_token(params, vars, rhs[i])->0),
        })
    }
}

proof fn lemma_params_step(lhs: Seq<TokenV>, i: int)
    requires
        0 <= i < lhs.len(),
    ensures
        params_of(lhs.subrange(0, i + 1)) == match lhs[i] {
            TokenV::Variable(n) => params_of(lhs.subrange(0, i)).push(n),
            _ => params_of(lhs.subrange(0, i)),
        },
{
    assert(lhs.subrange(0, i + 1).drop_last() =~= lhs.subrange(0, i));
}

fn collect_params(lhs: &Vec<Token>) -> (r: Vec<Vec<u8>>)
    ensures
        r@.map_values(|v: Vec<u8>| v@) == params_of(view_seq(lhs@)),
        r@.len() <= lhs@.len(),
{
    let ghost ts = view_seq(lhs@);
    let mut r: Vec<Vec<u8>> = Vec::new();
    let mut i: usize = 0;
    while i < lhs.len()
        invariant
            0 <= i <= lhs@.len(),
            ts == view_seq(lhs@),
            r@.len() <= i,
            r@.map_values(|v: Vec<u8>| v@) == params_of(ts.subrange(0, i as int)),
        decreases lhs@.len() - i,
    {
        proof {
            lemma_params_step(ts, i as int);
        }
        if let Token::Variable(n) = &lhs[i] {
            let c = n.clone();
            r.push(c);
            proof {
                assert(r@.map_values(|v: Vec<u8>| v@) =~= params_of(ts.subrange(0, i as int)).push(c@));
            }
        }
        i = i + 1;
    }
    proof {
        assert(ts.subrange(0, i as int) =~= ts);
    }
    r
}

proof fn lemma_param_index_found(params: Seq<Seq<u8>>, n: Seq<u8>, k: int)
    requires
        0 <= k < params.len(),
        params[k] == n,
        forall|j: int| 0 <= j < k ==> params[j] != n,
    ensures
        param_index(params, n) == Some(k),
    decreases params.len(),
{
    if k > 0 {
        let rest = params.subrange(1, params.len() as int);
        lemma_param_index_found(rest, n, k - 1);
    }
}

proof fn lemma_param_index_missing(params: Seq<Seq<u8>>, n: Seq<u8>)
    requires
        forall|j: int| 0 <= j < params.len() ==> params[j] != n,
    ensures
        param_index(params, n) is None,
    decreases params.len(),
{
    if params.len() > 0 {
        let rest = params.subrange(1, params.len() as int);
        lemma_param_index_missing(rest, n);
    }
}

fn find_param(params: &Vec<Vec<u8>>, n: &Vec<u8>) -> (r: Option<usize>)
    ensures
        match r {
            Some(k) => param_index(params@.map_values(|v: Vec<u8>| v@), n@) == Some(k as int) && k < params@.len(),
            None => param_index(params@.map_values(|v: Vec<u8>| v@), n@) is None,
        },
{
    let ghost ps = params@.map_values(|v: Vec<u8>| v@);
    let mut k: usize = 0;
    while k < params.len()
        invariant
            0 <= k <= params@.len(),
            ps == params@.map_values(|v: Vec<u8>| v@),
            forall|j: int| 0 <= j < k ==> ps[j] != n@,
        decreases params@.len() - k,
    {
        if crate::names::bytes_equal(&params[k], n) {
            proof {
                lemma_param_index_found(ps, n@, k as int);
            }
            return Some(k);
        }
        k = k + 1;
    }
    proof {
        lemma_param_index_missing(ps, n@);
    }
    None
}

/// Builds the function that `lhs = rhs` defines, binding every name of the
/// body that is no formal argument to its value in `vars` now.
pub fn create_function(lhs: &Vec<Token>, rhs: &Vec<Token>, vars: &NameMap<u64>) -> (r: Result<Function, CalcError>)
    requires
        vars.wf(),
    ensures
        match r {
            Ok(f) => definition(view_seq(lhs@), view_seq(rhs@), vars.view()) == Ok::<FunctionV, CalcError>(f@),
            Err(e) => definition(view_seq(lhs@), view_seq(rhs@), vars.view()) == Err::<FunctionV, CalcError>(e),
        },
{
    let ghost ls = view_seq(lhs@);
    let ghost rs = view_seq(rhs@);
    let name = match lhs.first() {
        Some(Token::FunctionName(n)) => n.clone(),
        _ => {
            proof {
                if ls.len() > 0 {
                    assert(ls[0] == lhs@[0]@);
                }
            }
            return Err(CalcError::NotAFunction);
        },
    };
    proof {
        assert(ls[0] == lhs@[0]@);
    }
    let params = collect_params(lhs);
    let ghost ps = params@.map_values(|v: Vec<u8>| v@);
    let mut body: Vec<Token> = Vec::new();
    let mut i: usize = 0;
    while i < rhs.len()
        invariant
            0 <= i <= rhs@.len(),
            rs == view_seq(rhs@),
            ls == view_seq(lhs@),
            ls.len() > 0,
            ls[0] == TokenV::FunctionName(name@),
            ps == params@.map_values(|v: Vec<u8>| v@),
            ps == params_of(ls),
            params@.len() <= lhs@.len(),
            vars.wf(),
            forall|j: int| 0 <= j < i ==> bind_body_token(ps, vars.view(), #[trigger] rs[j]) is Some,
            view_seq(body@) =~= Seq::new(i as nat, |j: int| bind_body_token(ps, vars.view(), rs[j])->0),
        decreases rhs@.len() - i,
    {
        proof {
            assert(rs[i as int] == rhs@[i as int]@);
        }
        let t = match &rhs[i] {
            Token::Variable(n) => match find_param(&params, n) {
                Some(k) => Token::FunctionArg(k),
                None => match vars.get(n) {
                    Some(v) => Token::Number(Value::Bits(*v)),
                    None => {
                        proof {
                            assert(bind_body_token(ps, vars.view(), rs[i as int]) is None);
                        }
                        return Err(CalcError::InvalidVariables);
                    },
                },
            },
            other => other.duplicate(),
        };
        proof {
            lemma_view_seq_push(body@, t);
        }
        body.push(t);
        i = i + 1;
    }
    let arg_count = params.len();
    let f = Function { name, arg_count, func: body };
    proof {
        assert(f@.body =~= Seq::new(rs.len(), |j: int| bind_body_token(ps, vars.view(), rs[j])->0));
    }
    Ok(f)
}

} // verus!

use vstd::prelude::*;
use crate::error::CalcError;
use crate::function::{Builtin, builtin_of};
use crate::token::{Token, TokenV, is_operator, view_seq};

verus! {

/// Whether `next` may follow `current`.
pub open spec fn next_valid(current: TokenV, next: TokenV) -> bool {
    match current {
        TokenV::Number(_) | TokenV::Variable(_) | TokenV::RightBracket =>
            !(next is Number || next is Variable || next is FunctionName || next is LeftBracket),
        TokenV::LeftBracket => !(is_operator(next) || next is Comma),
        TokenV::FunctionName(_) => next is LeftBracket,
        TokenV::Comma => !(is_operator(next) || next is Comma || next is RightBracket),
        _ => if is_operator(current) {
            !(is_operator(next) || next is RightBracket || next is Comma)
        } else {
            false
        },
    }
}

pub fn is_next_token_valid(current: &Token, next: &Token) -> (r: bool)
    ensures
        r == next_valid(current@, next@),
{
    match current {
        Token::Number(_) | Token::Variable(_) | Token::RightBracket => !(matches!(next, Token::Number(_))
            || matches!(next, Token::Variable(_)) || matches!(next, Token::FunctionName(_))
            || matches!(next, Token::LeftBracket)),
        Token::LeftBracket => !(next.is_operator() || matches!(next, Token::Comma)),
        Token::FunctionName(_) => matches!(next, Token::LeftBracket),
        Token::Comma => !(next.is_operator() || matches!(next, Token::Comma) || matches!(next, Token::RightBracket)),
        _ => if current.is_operator() {
            !(next.is_operator() || matches!(next, Token::RightBracket) || matches!(next, Token::Comma))
        } else {
            false
        },
    }
}

/// How many assignment markers `ts` holds.
pub open spec fn count_assignments(ts: Seq<TokenV>) -> nat
    decreases ts.len(),
{
    if ts.len() == 0 {
        0
    } else {
        count_assignments(ts.drop_last()) + if ts.last() is Assignment { 1nat } else { 0nat }
    }
}

/// Left brackets minus right brackets in `ts`.
pub open spec fn depth(ts: Seq<TokenV>) -> int
    decreases ts.len(),
{
    if ts.len() == 0 {
        0
    } else {
        depth(ts.drop_last()) + if ts.last() is LeftBracket {
            1int
        } else if ts.last() is RightBracket {
            -1int
        } else {
            0int
        }
    }
}

/// No prefix closes more brackets than it opens, and the whole closes all.
pub open spec fn balanced(ts: Seq<TokenV>) -> bool {
    &&& forall|i: int| 0 <= i <= ts.len() ==> depth(#[trigger] ts.subrange(0, i)) >= 0
    &&& depth(ts) == 0
}

/// One step of the scan that tracks function argument lists: whether the scan
/// is inside one, and the depth of the brackets counted while it is.
pub open spec fn comma_step(st: (bool, int), t: TokenV) -> (bool, int) {
    match t {
        TokenV::FunctionName(_) => (true, st.1),
        TokenV::LeftBracket => if st.0 {
            (true, st.1 + 1)
        } else {
            st
        },
        TokenV::RightBracket => if st.0 {
            (st.1 - 1 != 0, st.1 - 1)
        } else {
            st
        },
        _ => st,
    }
}

pub open spec fn comma_state(ts: Seq<TokenV>) -> (bool, int)
    decreases ts.len(),
{
    if ts.len() == 0 {
        (false, 0)
    } else {
        comma_step(comma_state(ts.drop_last()), ts.last())
    }
}

/// Every comma stands inside the argument list of a function call.
pub open spec fn commas_in_calls(ts: Seq<TokenV>) -> bool {
    forall|i: int| 0 <= i < ts.len() && (#[trigger] ts[i]) is Comma ==> comma_state(ts.subrange(0, i)).0
}

pub open spec fn bad_first(t: TokenV) -> bool {
    t is Comma || t is RightBracket || is_operator(t)
}

pub open spec fn bad_last(t: TokenV) -> bool {
    t is Comma || t is LeftBracket || t is FunctionName || is_operator(t)
}

pub open spec fn pairs_valid(ts: Seq<TokenV>) -> bool {
    forall|i: int| 0 <= i < ts.len() - 1 ==> next_valid(#[trigger] ts[i], ts[i + 1])
}

/// The verdict of the grammar rules on `ts`: the first rule broken, in order.
pub open spec fn validation(ts: Seq<TokenV>) -> Result<(), CalcError> {
    if ts.len() == 0 {
        Err(CalcError::EmptyInput)
    } else if count_assignments(ts) > 1 {
        Err(CalcError::TooManyAssignments)
    } else if bad_first(ts[0]) {
        Err(CalcError::InvalidFirstToken)
    } else if bad_last(ts.last()) {
        Err(CalcError::InvalidLastToken)
    } else if !pairs_valid(ts) {
        Err(CalcError::InvalidSequence)
    } else if !balanced(ts) {
        Err(CalcError::UnmatchedParenthesis)
    } else if !commas_in_calls(ts) {
        Err(CalcError::CommaOutsideFunction)
    } else {
        Ok(())
    }
}

proof fn lemma_prefix_step(ts: Seq<TokenV>, i: int)
    requires
        0 <= i < ts.len(),
    ensures
        ts.subrange(0, i + 1).drop_last() == ts.subrange(0, i),
        ts.subrange(0, i + 1).last() == ts[i],
{
    assert(ts.subrange(0, i + 1).drop_last() =~= ts.subrange(0, i));
}

fn assignment_count_ok(tokens: &Vec<Token>) -> (r: bool)
    ensures
        r == (count_assignments(view_seq(tokens@)) <= 1),
{
    let ghost ts = view_seq(tokens@);
    let mut count: usize = 0;
    let mut i: usize = 0;
    while i < tokens.len()
        invariant
            0 <= i <= tokens@.len(),
            ts == view_seq(tokens@),
            count == count_assignments(ts.subrange(0, i as int)),
            count <= 1,
        decreases tokens@.len() - i,
    {
        proof {
            lemma_prefix_step(ts, i as int);
        }
        if matches!(tokens[i], Token::Assignment) {
            if count == 1 {
                proof {
                    lemma_count_assignments_mono(ts, i + 1);
                }
                return false;
            }
            count = count + 1;
        }
        i = i + 1;
    }
    proof {
        assert(ts.subrange(0, i as int) =~= ts);
    }
    true
}

proof fn lemma_count_assignments_mono(ts: Seq<TokenV>, i: int)
    requires
        0 <= i <= ts.len(),
    ensures
        count_assignments(ts.subrange(0, i)) <= count_assignments(ts),
    decreases ts.len() - i,
{
    if i < ts.len() {
        lemma_count_assignments_mono(ts, i + 1);
        lemma_prefix_step(ts, i);
    } else {
        assert(ts.subrange(0, i) =~= ts);
    }
}

/// Whether the tokens of `tokens` from `lo` to `hi` balance their brackets.
pub fn brackets_balanced(tokens: &Vec<Token>, lo: usize, hi: usize) -> (r: bool)
    requires
        lo <= hi <= tokens@.len(),
    ensures
        r == balanced(view_seq(tokens@).subrange(lo as int, hi as int)),
{
    let ghost ts = view_seq(tokens@).subrange(lo as int, hi as int);
    let mut opens: usize = 0;
    let mut closes: usize = 0;
    let mut i: usize = lo;
    proof {
        assert(depth(ts.subrange(0, 0)) == 0);
    }
    while i < hi
        invariant
            lo <= i <= hi <= tokens@.len(),
            ts == view_seq(tokens@).subrange(lo as int, hi as int),
            opens + closes <= i - lo,
            opens - closes == depth(ts.subrange(0, i - lo)),
            forall|j: int| 0 <= j <= i - lo ==> depth(#[trigger] ts.subrange(0, j)) >= 0,
        decreases hi - i,
    {
        proof {
            lemma_prefix_step(ts, i - lo);
            assert(ts[i - lo] == tokens@[i as int]@);
        }
        if matches!(tokens[i], Token::LeftBracket) {
            opens = opens + 1;
        } else if matches!(tokens[i], Token::RightBracket) {
            if closes == opens {
                return false;
            }
            closes = closes + 1;
        }
        i = i + 1;
    }
    proof {
        assert(ts.subrange(0, hi - lo) =~= ts);
    }
    opens == closes
}

fn commas_placed(tokens: &Vec<Token>) -> (r: bool)
    ensures
        r == commas_in_calls(view_seq(tokens@)),
{
    let ghost ts = view_seq(tokens@);
    let mut inside = false;
    let mut opens: usize = 0;
    let mut closes: usize = 0;
    let mut i: usize = 0;
    while i < tokens.len()
        invariant
            0 <= i <= tokens@.len(),
            ts == view_seq(tokens@),
            opens <= i,
            closes <= i,
            comma_state(ts.subrange(0, i as int)) == (inside, opens - closes),
            forall|j: int| 0 <= j < i && (#[trigger] ts[j]) is Comma ==> comma_state(ts.subrange(0, j)).0,
        decreases tokens@.len() - i,
    {
        proof {
            lemma_prefix_step(ts, i as int);
        }
        match &tokens[i] {
            Token::FunctionName(_) => {
                inside = true;
            },
            Token::LeftBracket => {
                if inside {
                    opens = opens + 1;
                }
            },
            Token::RightBracket => {
                if inside {
                    closes = closes + 1;
                    if opens == closes {
                        inside = false;
                    }
                }
            },
            Token::Comma => {
                if !inside {
                    return false;
                }
            },
            _ => {},
        }
        i = i + 1;
    }
    true
}

/// Checks `tokens` against the grammar rules before anything is evaluated.
pub fn validate_token_list(tokens: &Vec<Token>) -> (r: Result<(), CalcError>)
    ensures
        r == validation(view_seq(tokens@)),
{
    let ghost ts = view_seq(tokens@);
    let n = tokens.len();
    if n == 0 {
        return Err(CalcError::EmptyInput);
    }
    if !assignment_count_ok(tokens) {
        return Err(CalcError::TooManyAssignments);
    }
    let first = &tokens[0];
    proof {
        assert(ts[0] == tokens@[0]@);
        assert(ts.last() == tokens@[n - 1]@);
    }
    if matches!(first, Token::Comma) || matches!(first, Token::RightBracket) || first.is_operator() {
        return Err(CalcError::InvalidFirstToken);
    }
    let last = &tokens[n - 1];
    if matches!(last, Token::Comma) || matches!(last, Token::LeftBracket) || matches!(last, Token::FunctionName(_))
        || last.is_operator() {
        return Err(CalcError::InvalidLastToken);
    }
    let mut i: usize = 0;
    while i < n - 1
        invariant
            n == tokens@.len() >= 1,
            ts == view_seq(tokens@),
            0 <= i <= n - 1,
            !bad_first(ts[0]),
            !bad_last(ts.last()),
            count_assignments(ts) <= 1,
            forall|j: int| 0 <= j < i ==> next_valid(#[trigger] ts[j], ts[j + 1]),
        decreases n - 1 - i,
    {
        if !is_next_token_valid(&tokens[i], &tokens[i + 1]) {
            proof {
                assert(ts[i as int] == tokens@[i as int]@);
                assert(ts[i + 1] == tokens@[i + 1]@);
                assert(!next_valid(ts[i as int], ts[i + 1]));

            }
            return Err(CalcError::InvalidSequence);
        }
        i = i + 1;
    }
    if !brackets_balanced(tokens, 0, n) {
        proof {
            assert(view_seq(tokens@).subrange(0, n as int) =~= ts);
        }
        return Err(CalcError::UnmatchedParenthesis);
    }
    proof {
        assert(view_seq(tokens@).subrange(0, n as int) =~= ts);
    }
    if !commas_placed(tokens) {
        return Err(CalcError::CommaOutsideFunction);
    }
    Ok(())
}


/// Formal arguments and commas alternate in `inner` from index `k` on.
pub open spec fn alternation_from(inner: Seq<TokenV>, k: int) -> Result<(), CalcError>
    decreases inner.len() - k,
{
    if k < 0 || k >= inner.len() {
        Ok(())
    } else if k % 2 == 0 {
        if inner[k] is Variable {
            alternation_from(inner, k + 1)
        } else {
            Err(CalcError::ExpectedArg)
        }
    } else {
        if inner[k] is Comma {
            alternation_from(inner, k + 1)
        } else {
            Err(CalcError::ExpectedComma)
        }
    }
}

/// The verdict on a left-hand side that should read `name(a, b, ...)` with a
/// name that no built-in function holds.
pub open spec fn lhs_function_check(ts: Seq<TokenV>) -> Result<(), CalcError> {
    if ts.len() == 0 || !(ts[0] is FunctionName) {
        Err(CalcError::NotAFunction)
    } else if builtin_of(ts[0]->FunctionName_0) is Some {
        Err(CalcError::ReservedName)
    } else if ts.len() < 3 || !(ts[1] is LeftBracket) || !(ts.last() is RightBracket) {
        Err(CalcError::ArgsNotBracketed)
    } else {
        alternation_from(ts.subrange(2, ts.len() - 1), 0)
    }
}

/// Checks that `tokens` is the left-hand side of a function definition.
pub fn is_valid_lhs_function(tokens: &Vec<Token>) -> (r: Result<(), CalcError>)
    ensures
        r == lhs_function_check(view_seq(tokens@)),
{
    let ghost ts = view_seq(tokens@);
    let n = tokens.len();
    if n == 0 {
        return Err(CalcError::NotAFunction);
    }
    proof {
        assert(ts[0] == tokens@[0]@);
    }
    match &tokens[0] {
        Token::FunctionName(name) => {
            if Builtin::from_name(name).is_some() {
                return Err(CalcError::ReservedName);
            }
        },
        _ => {
            return Err(CalcError::NotAFunction);
        },
    }
    if n < 3 || !matches!(tokens[1], Token::LeftBracket) || !matches!(tokens[n - 1], Token::RightBracket) {
        proof {
            if n >= 3 {
                assert(ts[1] == tokens@[1]@);
                assert(ts.last() == tokens@[n - 1]@);
            }
        }
        return Err(CalcError::ArgsNotBracketed);
    }
    proof {
        assert(ts[1] == tokens@[1]@);
        assert(ts.last() == tokens@[n - 1]@);
    }
    let ghost inner = ts.subrange(2, n - 1);
    let mut k: usize = 0;
    while k < n - 3
        invariant
            3 <= n == tokens@.len(),
            ts == view_seq(tokens@),
            inner == ts.subrange(2, n - 1),
            0 <= k <= n - 3,
            lhs_function_check(ts) == alternation_from(inner, k as int),
        decreases n - 3 - k,
    {
        proof {
            assert(inner[k as int] == tokens@[k + 2]@);
        }
        if k % 2 == 0 {
            if !matches!(tokens[k + 2], Token::Variable(_)) {
                return Err(CalcError::ExpectedArg);
            }
        } else {
            if !matches!(tokens[k + 2], Token::Comma) {
                return Err(CalcError::ExpectedComma);
            }
        }
        k = k + 1;
    }
    Ok(())
}

} // verus!

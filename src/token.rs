use vstd::prelude::*;
use crate::error::CalcError;
use vstd::slice::slice_subrange;

verus! {

/// A number as the engine carries it: the text of a literal with its sign, or
/// the IEEE-754 bit pattern of a double that the host computed.
#[derive(Clone, Debug)]
pub enum Value {
    Literal { negative: bool, digits: Vec<u8> },
    Bits(u64),
}

/// The mathematical view of a [`Value`].
pub enum ValueV {
    Literal { negative: bool, digits: Seq<u8> },
    Bits(u64),
}

impl View for Value {
    type V = ValueV;

    open spec fn view(&self) -> ValueV {
        match self {
            Value::Literal { negative, digits } => ValueV::Literal { negative: *negative, digits: digits@ },
            Value::Bits(b) => ValueV::Bits(*b),
        }
    }
}

impl Value {
    pub fn duplicate(&self) -> (r: Value)
        ensures
            r@ == self@,
    {
        match self {
            Value::Literal { negative, digits } => Value::Literal { negative: *negative, digits: digits.clone() },
            Value::Bits(b) => Value::Bits(*b),
        }
    }
}

/// The sign bit of an IEEE-754 double.
pub const SIGN_BIT: u64 = 0x8000_0000_0000_0000;

/// The value with its sign flipped.
pub open spec fn negated(v: ValueV) -> ValueV {
    match v {
        ValueV::Literal { negative, digits } => ValueV::Literal { negative: !negative, digits },
        ValueV::Bits(b) => ValueV::Bits(b ^ SIGN_BIT),
    }
}

/// A lexical unit of expression text.
#[derive(Clone, Debug)]
pub enum Token {
    Addition,
    Subtraction,
    Division,
    Multiplication,
    Truncation,
    Modulation,
    Exponentation,
    BitwiseLeftShift,
    BitwiseRightShift,
    BitwiseAnd,
    BitwiseOr,
    BitwiseXor,
    LeftBracket,
    RightBracket,
    Comma,
    Assignment,
    UnresolvedString(Vec<u8>),
    Variable(Vec<u8>),
    FunctionName(Vec<u8>),
    FunctionArg(usize),
    Number(Value),
}

/// The mathematical view of a [`Token`].
pub enum TokenV {
    Addition,
    Subtraction,
    Division,
    Multiplication,
    Truncation,
    Modulation,
    Exponentation,
    BitwiseLeftShift,
    BitwiseRightShift,
    BitwiseAnd,
    BitwiseOr,
    BitwiseXor,
    LeftBracket,
    RightBracket,
    Comma,
    Assignment,
    UnresolvedString(Seq<u8>),
    Variable(Seq<u8>),
    FunctionName(Seq<u8>),
    FunctionArg(usize),
    Number(ValueV),
}

impl View for Token {
    type V = TokenV;

    open spec fn view(&self) -> TokenV {
        match self {
            Token::Addition => TokenV::Addition,
            Token::Subtraction => TokenV::Subtraction,
            Token::Division => TokenV::Division,
            Token::Multiplication => TokenV::Multiplication,
            Token::Truncation => TokenV::Truncation,
            Token::Modulation => TokenV::Modulation,
            Token::Exponentation => TokenV::Exponentation,
            Token::BitwiseLeftShift => TokenV::BitwiseLeftShift,
            Token::BitwiseRightShift => TokenV::BitwiseRightShift,
            Token::BitwiseAnd => TokenV::BitwiseAnd,
            Token::BitwiseOr => TokenV::BitwiseOr,
            Token::BitwiseXor => TokenV::BitwiseXor,
            Token::LeftBracket => TokenV::LeftBracket,
            Token::RightBracket => TokenV::RightBracket,
            Token::Comma => TokenV::Comma,
            Token::Assignment => TokenV::Assignment,
            Token::UnresolvedString(s) => TokenV::UnresolvedString(s@),
            Token::Variable(s) => TokenV::Variable(s@),
            Token::FunctionName(s) => TokenV::FunctionName(s@),
            Token::FunctionArg(i) => TokenV::FunctionArg(*i),
            Token::Number(v) => TokenV::Number(v@),
        }
    }
}

impl Token {
    pub fn duplicate(&self) -> (r: Token)
        ensures
            r@ == self@,
    {
        match self {
            Token::Addition => Token::Addition,
            Token::Subtraction => Token::Subtraction,
            Token::Division => Token::Division,
            Token::Multiplication => Token::Multiplication,
            Token::Truncation => Token::Truncation,
            Token::Modulation => Token::Modulation,
            Token::Exponentation => Token::Exponentation,
            Token::BitwiseLeftShift => Token::BitwiseLeftShift,
            Token::BitwiseRightShift => Token::BitwiseRightShift,
            Token::BitwiseAnd => Token::BitwiseAnd,
            Token::BitwiseOr => Token::BitwiseOr,
            Token::BitwiseXor => Token::BitwiseXor,
            Token::LeftBracket => Token::LeftBracket,
            Token::RightBracket => Token::RightBracket,
            Token::Comma => Token::Comma,
            Token::Assignment => Token::Assignment,
            Token::UnresolvedString(s) => Token::UnresolvedString(s.clone()),
            Token::Variable(s) => Token::Variable(s.clone()),
            Token::FunctionName(s) => Token::FunctionName(s.clone()),
            Token::FunctionArg(i) => Token::FunctionArg(*i),
            Token::Number(v) => Token::Number(v.duplicate()),
        }
    }

    pub fn is_operator(&self) -> (r: bool)
        ensures
            r == is_operator(self@),
    {
        match self {
            Token::Assignment | Token::Addition | Token::Subtraction | Token::Division
            | Token::Multiplication | Token::Truncation | Token::Modulation | Token::Exponentation
            | Token::BitwiseLeftShift | Token::BitwiseRightShift | Token::BitwiseAnd
            | Token::BitwiseOr | Token::BitwiseXor => true,
            _ => false,
        }
    }
}

/// A token found at the start of some text, with the number of bytes it took.
#[derive(Clone, Debug)]
pub struct TokenStringResult {
    pub length: usize,
    pub operator: Token,
}

/// The view of each token of a sequence.
pub open spec fn view_seq(v: Seq<Token>) -> Seq<TokenV> {
    v.map_values(|t: Token| t@)
}

pub proof fn lemma_view_seq_push(v: Seq<Token>, t: Token)
    ensures
        view_seq(v.push(t)) == view_seq(v).push(t@),
{
    assert(view_seq(v.push(t)) =~= view_seq(v).push(t@));
}

/// The operators, the assignment marker among them.
pub open spec fn is_operator(t: TokenV) -> bool {
    match t {
        TokenV::Assignment | TokenV::Addition | TokenV::Subtraction | TokenV::Division
        | TokenV::Multiplication | TokenV::Truncation | TokenV::Modulation | TokenV::Exponentation
        | TokenV::BitwiseLeftShift | TokenV::BitwiseRightShift | TokenV::BitwiseAnd
        | TokenV::BitwiseOr | TokenV::BitwiseXor => true,
        _ => false,
    }
}

/// The operator that the bytes `key` spell, if any.
pub open spec fn operator_of(key: Seq<u8>) -> Option<TokenV> {
    if key.len() == 2 {
        if key[0] == 60u8 && key[1] == 60u8 {
            Some(TokenV::BitwiseLeftShift)
        } else if key[0] == 62u8 && key[1] == 62u8 {
            Some(TokenV::BitwiseRightShift)
        } else if key[0] == 47u8 && key[1] == 47u8 {
            Some(TokenV::Truncation)
        } else if key[0] == 94u8 && key[1] == 94u8 {
            Some(TokenV::BitwiseXor)
        } else {
            None
        }
    } else if key.len() == 1 {
        let c = key[0];
        if c == 94u8 {
            Some(TokenV::Exponentation)
        } else if c == 43u8 {
            Some(TokenV::Addition)
        } else if c == 45u8 {
            Some(TokenV::Subtraction)
        } else if c == 47u8 {
            Some(TokenV::Division)
        } else if c == 42u8 {
            Some(TokenV::Multiplication)
        } else if c == 37u8 {
            Some(TokenV::Modulation)
        } else if c == 38u8 {
            Some(TokenV::BitwiseAnd)
        } else if c == 124u8 {
            Some(TokenV::BitwiseOr)
        } else if c == 40u8 {
            Some(TokenV::LeftBracket)
        } else if c == 41u8 {
            Some(TokenV::RightBracket)
        } else if c == 44u8 {
            Some(TokenV::Comma)
        } else if c == 61u8 {
            Some(TokenV::Assignment)
        } else {
            None
        }
    } else {
        None
    }
}

pub open spec fn option_view(o: Option<Token>) -> Option<TokenV> {
    match o {
        Some(t) => Some(t@),
        None => None,
    }
}

/// Looks up the operator that `key` spells.
pub fn match_token(key: &[u8]) -> (r: Option<Token>)
    ensures
        option_view(r) == operator_of(key@),
{
    if key.len() == 2 {
        let a = key[0];
        let b = key[1];
        if a == 60u8 && b == 60u8 {
            Some(Token::BitwiseLeftShift)
        } else if a == 62u8 && b == 62u8 {
            Some(Token::BitwiseRightShift)
        } else if a == 47u8 && b == 47u8 {
            Some(Token::Truncation)
        } else if a == 94u8 && b == 94u8 {
            Some(Token::BitwiseXor)
        } else {
            None
        }
    } else if key.len() == 1 {
        let c = key[0];
        if c == 94u8 {
            Some(Token::Exponentation)
        } else if c == 43u8 {
            Some(Token::Addition)
        } else if c == 45u8 {
            Some(Token::Subtraction)
        } else if c == 47u8 {
            Some(Token::Division)
        } else if c == 42u8 {
            Some(Token::Multiplication)
        } else if c == 37u8 {
            Some(Token::Modulation)
        } else if c == 38u8 {
            Some(Token::BitwiseAnd)
        } else if c == 124u8 {
            Some(Token::BitwiseOr)
        } else if c == 40u8 {
            Some(Token::LeftBracket)
        } else if c == 41u8 {
            Some(Token::RightBracket)
        } else if c == 44u8 {
            Some(Token::Comma)
        } else if c == 61u8 {
            Some(Token::Assignment)
        } else {
            None
        }
    } else {
        None
    }
}


/// The two kinds of byte run that the tokenizer reads as one token.
#[derive(Clone, Copy, Debug, PartialEq, Eq, Structural)]
pub enum CharClass {
    /// Decimal digits and the decimal point.
    Numeric,
    /// ASCII letters and the underscore.
    Alphabetic,
}

pub open spec fn is_digit(b: u8) -> bool {
    48u8 <= b <= 57u8
}

pub open spec fn in_class(c: CharClass, b: u8) -> bool {
    match c {
        CharClass::Numeric => is_digit(b) || b == 46u8,
        CharClass::Alphabetic => (65u8 <= b <= 90u8) || (97u8 <= b <= 122u8) || b == 95u8,
    }
}

pub fn is_in_class(c: CharClass, b: u8) -> (r: bool)
    ensures
        r == in_class(c, b),
{
    match c {
        CharClass::Numeric => (48u8 <= b && b <= 57u8) || b == 46u8,
        CharClass::Alphabetic => (65u8 <= b && b <= 90u8) || (97u8 <= b && b <= 122u8) || b == 95u8,
    }
}

/// How many bytes of class `c` follow one another in `s` from index `j` on.
pub open spec fn run_len(c: CharClass, s: Seq<u8>, j: int) -> nat
    decreases s.len() - j,
{
    if 0 <= j < s.len() && in_class(c, s[j]) {
        1 + run_len(c, s, j + 1)
    } else {
        0
    }
}

/// The bounds of the token that starts at `start`: the byte there and the run
/// of class `c` that follows it.
pub fn get_token_bounds(c: CharClass, start: usize, input_chars: &[u8]) -> (r: (usize, usize))
    requires
        start < usize::MAX,
    ensures
        r.0 == start,
        r.1 == start + 1 + run_len(c, input_chars@, start + 1),
        start < input_chars@.len() ==> r.1 <= input_chars@.len(),
{
    let n = input_chars.len();
    let mut end: usize = start + 1;
    while end < n && is_in_class(c, input_chars[end])
        invariant
            start < end,
            start < n ==> end <= n,
            n == input_chars@.len(),
            start + 1 + run_len(c, input_chars@, start + 1) == end + run_len(c, input_chars@, end as int),
        decreases input_chars@.len() - end,
    {
        end = end + 1;
    }
    proof {
        assert(run_len(c, input_chars@, end as int) == 0);
    }
    (start, end)
}

/// How many decimal points `s` holds.
pub open spec fn count_points(s: Seq<u8>) -> nat
    decreases s.len(),
{
    if s.len() == 0 {
        0
    } else {
        count_points(s.drop_last()) + if s.last() == 46u8 { 1nat } else { 0nat }
    }
}

/// A run of digits and points reads as a number: one point at most, and a digit.
pub open spec fn valid_numeral(s: Seq<u8>) -> bool {
    count_points(s) <= 1 && exists|k: int| 0 <= k < s.len() && is_digit(#[trigger] s[k])
}

pub fn is_valid_numeral(s: &Vec<u8>) -> (r: bool)
    ensures
        r == valid_numeral(s@),
{
    let mut points: usize = 0;
    let mut digit = false;
    let mut i: usize = 0;
    while i < s.len()
        invariant
            0 <= i <= s@.len(),
            points == count_points(s@.subrange(0, i as int)),
            digit == exists|k: int| 0 <= k < i && is_digit(#[trigger] s@[k]),
        decreases s@.len() - i,
    {
        proof {
            assert(s@.subrange(0, i + 1).drop_last() =~= s@.subrange(0, i as int));
        }
        if s[i] == 46u8 {
            if points < 2 {
                points = points + 1;
            }
        }
        if 48u8 <= s[i] && s[i] <= 57u8 {
            digit = true;
        }
        if points >= 2 {
            proof {
                lemma_count_points_mono(s@, i + 1);
            }
            return false;
        }
        i = i + 1;
    }
    proof {
        assert(s@.subrange(0, s@.len() as int) =~= s@);
    }
    points <= 1 && digit
}

proof fn lemma_count_points_mono(s: Seq<u8>, i: int)
    requires
        0 <= i <= s.len(),
    ensures
        count_points(s.subrange(0, i)) <= count_points(s),
    decreases s.len() - i,
{
    if i < s.len() {
        lemma_count_points_mono(s, i + 1);
        assert(s.subrange(0, i + 1).drop_last() =~= s.subrange(0, i));
    } else {
        assert(s.subrange(0, i) =~= s);
    }
}

/// `t` followed by what `r` holds, or the error of `r`.
pub open spec fn prepend(t: TokenV, r: Result<Seq<TokenV>, CalcError>) -> Result<Seq<TokenV>, CalcError> {
    match r {
        Ok(ts) => Ok(seq![t] + ts),
        Err(e) => Err(e),
    }
}

/// `p` followed by what `r` holds, or the error of `r`.
pub open spec fn join(p: Seq<TokenV>, r: Result<Seq<TokenV>, CalcError>) -> Result<Seq<TokenV>, CalcError> {
    match r {
        Ok(ts) => Ok(p + ts),
        Err(e) => Err(e),
    }
}

/// The raw tokens of `s` from index `i` on: a run of digits and points is a
/// literal, a run of letters a name, and any other ASCII byte starts the
/// longest operator that it can.
pub open spec fn lex_from(s: Seq<u8>, i: int) -> Result<Seq<TokenV>, CalcError>
    decreases s.len() - i via lex_from_decreases
{
    if i < 0 || i >= s.len() {
        Ok(seq![])
    } else if in_class(CharClass::Numeric, s[i]) {
        let e = i + 1 + run_len(CharClass::Numeric, s, i + 1);
        let text = s.subrange(i, e);
        if valid_numeral(text) {
            prepend(TokenV::Number(ValueV::Literal { negative: false, digits: text }), lex_from(s, e))
        } else {
            Err(CalcError::InvalidNumber)
        }
    } else if in_class(CharClass::Alphabetic, s[i]) {
        let e = i + 1 + run_len(CharClass::Alphabetic, s, i + 1);
        prepend(TokenV::UnresolvedString(s.subrange(i, e)), lex_from(s, e))
    } else if s[i] < 128u8 {
        if i + 2 <= s.len() && operator_of(s.subrange(i, i + 2)) is Some {
            prepend(operator_of(s.subrange(i, i + 2))->0, lex_from(s, i + 2))
        } else if operator_of(s.subrange(i, i + 1)) is Some {
            prepend(operator_of(s.subrange(i, i + 1))->0, lex_from(s, i + 1))
        } else {
            Err(CalcError::InvalidOperator)
        }
    } else {
        Err(CalcError::InvalidInput)
    }
}

proof fn lemma_run_len_bound(c: CharClass, s: Seq<u8>, j: int)
    requires
        0 <= j <= s.len(),
    ensures
        j + run_len(c, s, j) <= s.len(),
    decreases s.len() - j,
{
    if j < s.len() && in_class(c, s[j]) {
        lemma_run_len_bound(c, s, j + 1);
    }
}

#[via_fn]
proof fn lex_from_decreases(s: Seq<u8>, i: int) {
    if 0 <= i < s.len() {
        lemma_run_len_bound(CharClass::Numeric, s, i + 1);
        lemma_run_len_bound(CharClass::Alphabetic, s, i + 1);
    }
}

fn copy_range(input: &[u8], from: usize, to: usize) -> (r: Vec<u8>)
    requires
        from <= to <= input@.len(),
    ensures
        r@ == input@.subrange(from as int, to as int),
{
    let mut r: Vec<u8> = Vec::new();
    let mut i: usize = from;
    while i < to
        invariant
            from <= i <= to <= input@.len(),
            r@ == input@.subrange(from as int, i as int),
        decreases to - i,
    {
        r.push(input[i]);
        proof {
            assert(r@ =~= input@.subrange(from as int, i + 1));
        }
        i = i + 1;
    }
    r
}

proof fn lemma_join_prepend(p: Seq<TokenV>, t: TokenV, r: Result<Seq<TokenV>, CalcError>)
    ensures
        join(p, prepend(t, r)) == join(p.push(t), r),
{
    if let Ok(ts) = r {
        assert(p + (seq![t] + ts) =~= p.push(t) + ts);
    }
}

/// Splits `input` into raw tokens, names not yet classified and signs not yet folded.
pub fn lex_tokens(input: &[u8]) -> (r: Result<Vec<Token>, CalcError>)
    ensures
        match r {
            Ok(ts) => lex_from(input@, 0) == Ok::<Seq<TokenV>, CalcError>(view_seq(ts@)),
            Err(e) => lex_from(input@, 0) == Err::<Seq<TokenV>, CalcError>(e),
        },
{
    let mut tokens: Vec<Token> = Vec::new();
    let len = input.len();
    let mut i: usize = 0;
    proof {
        assert(view_seq(tokens@) =~= seq![]);
        match lex_from(input@, 0) {
            Ok(ts) => assert(seq![] + ts =~= ts),
            Err(_) => {},
        }
    }
    while i < len
        invariant
            0 <= i <= len == input@.len(),
            lex_from(input@, 0) == join(view_seq(tokens@), lex_from(input@, i as int)),
        decreases len - i,
    {
        let c = input[i];
        if is_in_class(CharClass::Numeric, c) {
            let bounds = get_token_bounds(CharClass::Numeric, i, input);
            let text = copy_range(input, i, bounds.1);
            if !is_valid_numeral(&text) {
                return Err(CalcError::InvalidNumber);
            }
            let t = Token::Number(Value::Literal { negative: false, digits: text });
            proof {
                lemma_join_prepend(view_seq(tokens@), t@, lex_from(input@, bounds.1 as int));
                lemma_view_seq_push(tokens@, t);
            }
            tokens.push(t);
            i = bounds.1;
        } else if is_in_class(CharClass::Alphabetic, c) {
            let bounds = get_token_bounds(CharClass::Alphabetic, i, input);
            let text = copy_range(input, i, bounds.1);
            let t = Token::UnresolvedString(text);
            proof {
                lemma_join_prepend(view_seq(tokens@), t@, lex_from(input@, bounds.1 as int));
                lemma_view_seq_push(tokens@, t);
            }
            tokens.push(t);
            i = bounds.1;
        } else if c < 128u8 {
            let mut found: Option<Token> = None;
            let mut width: usize = 0;
            if len - i >= 2 {
                found = match_token(slice_subrange(input, i, i + 2));
                width = 2;
            }
            if found.is_none() {
                found = match_token(slice_subrange(input, i, i + 1));
                width = 1;
            }
            match found {
                Some(t) => {
                    proof {
                        lemma_join_prepend(view_seq(tokens@), t@, lex_from(input@, i + width));
                        lemma_view_seq_push(tokens@, t);
                    }
                    tokens.push(t);
                    i = i + width;
                },
                None => {
                    return Err(CalcError::InvalidOperator);
                },
            }
        } else {
            return Err(CalcError::InvalidInput);
        }
    }
    proof {
        assert(view_seq(tokens@) + seq![] =~= view_seq(tokens@));
    }
    Ok(tokens)
}


/// A sign before a literal is folded into it where no binary reading is
/// possible: after an operator, a bracket, the assignment marker or a comma.
pub open spec fn sign_context(t: TokenV) -> bool {
    is_operator(t) || t is LeftBracket || t is RightBracket || t is Comma
}

/// The value after the sign token `sign`.
pub open spec fn signed(sign: TokenV, v: ValueV) -> ValueV {
    if sign is Subtraction {
        negated(v)
    } else {
        v
    }
}

/// Folds unary signs of `rest` into the literals that follow them, left to
/// right; `acc` is what has been emitted so far.
pub open spec fn fold_signs(acc: Seq<TokenV>, rest: Seq<TokenV>) -> Seq<TokenV>
    decreases rest.len(),
{
    if rest.len() >= 2 && (rest[0] is Addition || rest[0] is Subtraction) && rest[1] is Number
        && (acc.len() == 0 || sign_context(acc.last())) {
        fold_signs(acc.push(TokenV::Number(signed(rest[0], rest[1]->Number_0))), rest.subrange(2, rest.len() as int))
    } else if rest.len() >= 1 {
        fold_signs(acc.push(rest[0]), rest.subrange(1, rest.len() as int))
    } else {
        acc
    }
}

impl Value {
    pub fn negate(self) -> (r: Value)
        ensures
            r@ == negated(self@),
    {
        match self {
            Value::Literal { negative, digits } => Value::Literal { negative: !negative, digits },
            Value::Bits(b) => Value::Bits(b ^ SIGN_BIT),
        }
    }
}

fn is_sign_context(t: &Token) -> (r: bool)
    ensures
        r == sign_context(t@),
{
    t.is_operator() || matches!(t, Token::LeftBracket) || matches!(t, Token::RightBracket) || matches!(t, Token::Comma)
}

/// Folds each unary sign into the literal that follows it.
pub fn fold_sign_tokens(tokens: &Vec<Token>) -> (r: Vec<Token>)
    ensures
        view_seq(r@) == fold_signs(seq![], view_seq(tokens@)),
{
    let n = tokens.len();
    let ghost all = view_seq(tokens@);
    let mut out: Vec<Token> = Vec::new();
    let mut i: usize = 0;
    proof {
        assert(view_seq(out@) =~= seq![]);
        assert(all.subrange(0, n as int) =~= all);
    }
    while i < n
        invariant
            0 <= i <= n == tokens@.len(),
            all == view_seq(tokens@),
            fold_signs(seq![], all) == fold_signs(view_seq(out@), all.subrange(i as int, n as int)),
        decreases n - i,
    {
        let ghost rest = all.subrange(i as int, n as int);
        let is_sign = matches!(tokens[i], Token::Addition) || matches!(tokens[i], Token::Subtraction);
        let foldable = is_sign && i + 1 < n && matches!(tokens[i + 1], Token::Number(_))
            && (out.len() == 0 || is_sign_context(&out[out.len() - 1]));
        if foldable {
            let v = match &tokens[i + 1] {
                Token::Number(v) => v.duplicate(),
                _ => Value::Bits(0),
            };
            let v = if matches!(tokens[i], Token::Subtraction) {
                v.negate()
            } else {
                v
            };
            let t = Token::Number(v);
            proof {
                assert(rest[0] == tokens@[i as int]@);
                assert(rest[1] == tokens@[i + 1]@);
                if out@.len() > 0 {
                    assert(view_seq(out@).last() == out@.last()@);
                }
                assert(rest.subrange(2, rest.len() as int) =~= all.subrange(i + 2, n as int));
                lemma_view_seq_push(out@, t);
            }
            out.push(t);
            i = i + 2;
        } else {
            let t = tokens[i].duplicate();
            proof {
                assert(rest[0] == tokens@[i as int]@);
                if i + 1 < n {
                    assert(rest[1] == tokens@[i + 1]@);
                }
                if out@.len() > 0 {
                    assert(view_seq(out@).last() == out@.last()@);
                }
                assert(rest.subrange(1, rest.len() as int) =~= all.subrange(i + 1, n as int));
                lemma_view_seq_push(out@, t);
            }
            out.push(t);
            i = i + 1;
        }
    }
    proof {
        assert(all.subrange(n as int, n as int) =~= seq![]);
    }
    out
}

/// A name followed by a left bracket names a function; any other name a variable.
pub open spec fn classify(ts: Seq<TokenV>, i: int) -> TokenV {
    match ts[i] {
        TokenV::UnresolvedString(n) => if i + 1 < ts.len() && ts[i + 1] is LeftBracket {
            TokenV::FunctionName(n)
        } else {
            TokenV::Variable(n)
        },
        t => t,
    }
}

pub open spec fn classify_names(ts: Seq<TokenV>) -> Seq<TokenV> {
    Seq::new(ts.len(), |i: int| classify(ts, i))
}

/// Turns every unresolved name into a function name or a variable.
pub fn resolve_strings(tokens: &Vec<Token>) -> (r: Vec<Token>)
    ensures
        view_seq(r@) == classify_names(view_seq(tokens@)),
{
    let n = tokens.len();
    let mut out: Vec<Token> = Vec::new();
    let mut i: usize = 0;
    while i < n
        invariant
            0 <= i <= n == tokens@.len(),
            view_seq(out@) =~= classify_names(view_seq(tokens@)).subrange(0, i as int),
        decreases n - i,
    {
        let t = match &tokens[i] {
            Token::UnresolvedString(name) => {
                if i + 1 < n && matches!(tokens[i + 1], Token::LeftBracket) {
                    Token::FunctionName(name.clone())
                } else {
                    Token::Variable(name.clone())
                }
            },
            other => other.duplicate(),
        };
        proof {
            lemma_view_seq_push(out@, t);
        }
        out.push(t);
        i = i + 1;
    }
    out
}

/// The tokens of `s` with unary signs folded, names not yet classified.
pub open spec fn signed_tokens(s: Seq<u8>) -> Result<Seq<TokenV>, CalcError> {
    match lex_from(s, 0) {
        Ok(raw) => Ok(fold_signs(seq![], raw)),
        Err(e) => Err(e),
    }
}

/// Splits `input` into tokens and folds each unary sign into the literal
/// after it; names are not yet classified.
pub fn get_tokens(input: &[u8]) -> (r: Result<Vec<Token>, CalcError>)
    ensures
        match r {
            Ok(ts) => signed_tokens(input@) == Ok::<Seq<TokenV>, CalcError>(view_seq(ts@)),
            Err(e) => signed_tokens(input@) == Err::<Seq<TokenV>, CalcError>(e),
        },
{
    match lex_tokens(input) {
        Ok(raw) => Ok(fold_sign_tokens(&raw)),
        Err(e) => Err(e),
    }
}

/// The tokens of `s`: raw tokens with signs folded and names classified.
pub open spec fn tokenize_spec(s: Seq<u8>) -> Result<Seq<TokenV>, CalcError> {
    match lex_from(s, 0) {
        Ok(raw) => Ok(classify_names(fold_signs(seq![], raw))),
        Err(e) => Err(e),
    }
}

/// Turns expression text, blanks already removed, into tokens.
pub fn tokenize(input: &Vec<u8>) -> (r: Result<Vec<Token>, CalcError>)
    ensures
        match r {
            Ok(ts) => tokenize_spec(input@) == Ok::<Seq<TokenV>, CalcError>(view_seq(ts@)),
            Err(e) => tokenize_spec(input@) == Err::<Seq<TokenV>, CalcError>(e),
        },
{
    match get_tokens(input.as_slice()) {
        Ok(signed) => Ok(resolve_strings(&signed)),
        Err(e) => Err(e),
    }
}

} // verus!

use vstd::prelude::*;

verus! {

/// Every way in which one evaluation can fail.
#[derive(Clone, Copy, Debug, PartialEq, Eq, Structural)]
pub enum CalcError {
    /// A run of digits and points that is not a number.
    InvalidNumber,
    /// An ASCII byte that starts no operator.
    InvalidOperator,
    /// A byte outside ASCII.
    InvalidInput,
    /// Nothing left to evaluate.
    EmptyInput,
    /// More than one `=`.
    TooManyAssignments,
    InvalidFirstToken,
    InvalidLastToken,
    InvalidSequence,
    UnmatchedParenthesis,
    CommaOutsideFunction,
    /// A variable without a binding.
    UnknownVariable,
    /// A definition of a built-in function.
    ReservedName,
    NotAFunction,
    ArgsNotBracketed,
    ExpectedComma,
    ExpectedArg,
    /// The left of `=` is neither a variable nor a call pattern.
    InvalidAssignmentTarget,
    /// A function body names a variable that has no binding.
    InvalidVariables,
    UnknownFunction,
    IncorrectArgumentCount,
    /// An operator that the evaluator does not reduce, or a shape it cannot read.
    Unsupported,
    /// User functions nested deeper than the evaluator follows.
    TooDeep,
}

/// The stage of the pipeline that an error belongs to.
#[derive(Clone, Copy, Debug, PartialEq, Eq, Structural)]
pub enum ErrorClass {
    Lexical,
    Grammar,
    Resolution,
    Definition,
    Invocation,
}

pub open spec fn class_of(e: CalcError) -> ErrorClass {
    match e {
        CalcError::InvalidNumber | CalcError::InvalidOperator | CalcError::InvalidInput => ErrorClass::Lexical,
        CalcError::UnknownVariable => ErrorClass::Resolution,
        CalcError::ReservedName | CalcError::NotAFunction | CalcError::ArgsNotBracketed
        | CalcError::ExpectedComma | CalcError::ExpectedArg | CalcError::InvalidAssignmentTarget
        | CalcError::InvalidVariables => ErrorClass::Definition,
        CalcError::UnknownFunction | CalcError::IncorrectArgumentCount | CalcError::Unsupported
        | CalcError::TooDeep => ErrorClass::Invocation,
        _ => ErrorClass::Grammar,
    }
}

/// The text shown to the user for the error `e`.
pub open spec fn message_text(e: CalcError) -> &'static str {
    match e {
        CalcError::InvalidNumber => "unable to parse number",
        CalcError::InvalidOperator => "unknown operator",
        CalcError::InvalidInput => "invalid input",
        CalcError::EmptyInput => "",
        CalcError::TooManyAssignments => "cannot have more than 1 '='",
        CalcError::InvalidFirstToken => "invalid first token",
        CalcError::InvalidLastToken => "invalid last token",
        CalcError::InvalidSequence => "invalid token sequence",
        CalcError::UnmatchedParenthesis => "imbalanced brackets",
        CalcError::CommaOutsideFunction => "commas only go in functions",
        CalcError::UnknownVariable => "Variable does not exist",
        CalcError::ReservedName => "built-in functions cannot be reassigned",
        CalcError::NotAFunction => "Not a function",
        CalcError::ArgsNotBracketed => "func args must be in brackets",
        CalcError::ExpectedComma => "expected comma",
        CalcError::ExpectedArg => "expected arg",
        CalcError::InvalidAssignmentTarget => "lhs must be variable or function",
        CalcError::InvalidVariables => "invalid variables",
        CalcError::UnknownFunction => "function does not exist",
        CalcError::IncorrectArgumentCount => "incorrect argument count",
        CalcError::Unsupported => "Couldn't solve equation",
        CalcError::TooDeep => "functions nested too deeply",
    }
}


impl CalcError {
    pub fn class(&self) -> (r: ErrorClass)
        ensures
            r == class_of(*self),
    {
        match self {
            CalcError::InvalidNumber | CalcError::InvalidOperator | CalcError::InvalidInput => ErrorClass::Lexical,
            CalcError::UnknownVariable => ErrorClass::Resolution,
            CalcError::ReservedName | CalcError::NotAFunction | CalcError::ArgsNotBracketed
            | CalcError::ExpectedComma | CalcError::ExpectedArg | CalcError::InvalidAssignmentTarget
            | CalcError::InvalidVariables => ErrorClass::Definition,
            CalcError::UnknownFunction | CalcError::IncorrectArgumentCount | CalcError::Unsupported
            | CalcError::TooDeep => ErrorClass::Invocation,
            _ => ErrorClass::Grammar,
        }
    }

    /// The text shown to the user for this error.
    pub fn message(&self) -> (r: &'static str)
        ensures
            r == message_text(*self),
    {
        match self {
            CalcError::InvalidNumber => "unable to parse number",
            CalcError::InvalidOperator => "unknown operator",
            CalcError::InvalidInput => "invalid input",
            CalcError::EmptyInput => "",
            CalcError::TooManyAssignments => "cannot have more than 1 '='",
            CalcError::InvalidFirstToken => "invalid first token",
            CalcError::InvalidLastToken => "invalid last token",
            CalcError::InvalidSequence => "invalid token sequence",
            CalcError::UnmatchedParenthesis => "imbalanced brackets",
            CalcError::CommaOutsideFunction => "commas only go in functions",
            CalcError::UnknownVariable => "Variable does not exist",
            CalcError::ReservedName => "built-in functions cannot be reassigned",
            CalcError::NotAFunction => "Not a function",
            CalcError::ArgsNotBracketed => "func args must be in brackets",
            CalcError::ExpectedComma => "expected comma",
            CalcError::ExpectedArg => "expected arg",
            CalcError::InvalidAssignmentTarget => "lhs must be variable or function",
            CalcError::InvalidVariables => "invalid variables",
            CalcError::UnknownFunction => "function does not exist",
            CalcError::IncorrectArgumentCount => "incorrect argument count",
            CalcError::Unsupported => "Couldn't solve equation",
            CalcError::TooDeep => "functions nested too deeply",
        }
    }
}

} // verus!

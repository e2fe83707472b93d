//! Failures of the interpreter.

use vstd::prelude::*;
use vstd::string::StringExecFns;

verus! {

/// Why reading or evaluating an expression failed, in words.
#[derive(Debug, PartialEq)]
pub enum LisperErr {
    Reason(String),
}

impl View for LisperErr {
    type V = Seq<char>;

    open spec fn view(&self) -> Seq<char> {
        match self {
            LisperErr::Reason(reason) => reason@,
        }
    }
}

impl LisperErr {
    /// The reason, as text.
    pub fn to_string(&self) -> (text: String)
        ensures
            text@ == self@,
    {
        match self {
            LisperErr::Reason(reason) => reason.clone(),
        }
    }
}

/// The conditions under which reading or evaluating fails.
#[derive(Clone, Copy, PartialEq, Eq, Structural, Debug)]
pub enum Fault {
    /// There is no token to read.
    EmptyInput,
    /// The tokens end inside a list.
    UnterminatedList,
    /// A `)` stands where an expression begins.
    UnexpectedCloseParen,
    /// A symbol is evaluated that has no binding.
    UnboundSymbol,
    /// A built-in operation is evaluated outside the head of a list.
    UnexpectedFunction,
    /// A user-defined function is evaluated outside the head of a list.
    UnexpectedLambda,
    /// A list without items is evaluated.
    EmptyExpression,
    /// `if` has other than three arguments.
    IfArity,
    /// `def` has other than two arguments.
    DefArity,
    /// `fn` has other than three arguments.
    FnArity,
    /// A user-defined function is called with other than one argument.
    CallArity,
    /// The condition of an `if` is neither a boolean nor a number.
    InvalidCondition,
    /// The head of a list is a symbol without a binding.
    UnknownOperator,
    /// The head of a list is bound to what is no function.
    NotCallable,
    /// The head of a list is neither a symbol nor a list.
    InvalidCallHead,
    /// User-defined functions call each other more deeply than allowed.
    DepthExceeded,
}

impl Fault {
    /// The words that report the condition.
    pub open spec fn message(self) -> Seq<char> {
        match self {
            Fault::EmptyInput => "Could not get token"@,
            Fault::UnterminatedList => "Error reading token, missing )."@,
            Fault::UnexpectedCloseParen => "Parsing error, found unexpected )."@,
            Fault::UnboundSymbol => "Eval issue, not a real expression"@,
            Fault::UnexpectedFunction => "Unexpected function"@,
            Fault::UnexpectedLambda => "Unexpected lambda function"@,
            Fault::EmptyExpression => "Error reading expression"@,
            Fault::IfArity => "Syntax error, if only takes 3 arguments, if expression, true expression, and false expression."@,
            Fault::DefArity => "Syntax error, def only takes 2 arguments, name and an expression."@,
            Fault::FnArity => "Syntax error, fn only takes 3 arguments: function name, argument name, and function expression."@,
            Fault::CallArity => "Syntax error, a fn call only takes 1 argument."@,
            Fault::InvalidCondition => "If statement invalid."@,
            Fault::UnknownOperator => "Error, env function not found."@,
            Fault::NotCallable => "Error, function not found."@,
            Fault::InvalidCallHead => "Parsing error."@,
            Fault::DepthExceeded => "Error, function calls nested too deeply."@,
        }
    }

    /// The error that reports the condition.
    pub fn reason(self) -> (e: LisperErr)
        ensures
            e@ == self.message(),
    {
        let text = match self {
            Fault::EmptyInput => "Could not get token",
            Fault::UnterminatedList => "Error reading token, missing ).",
            Fault::UnexpectedCloseParen => "Parsing error, found unexpected ).",
            Fault::UnboundSymbol => "Eval issue, not a real expression",
            Fault::UnexpectedFunction => "Unexpected function",
            Fault::UnexpectedLambda => "Unexpected lambda function",
            Fault::EmptyExpression => "Error reading expression",
            Fault::IfArity => "Syntax error, if only takes 3 arguments, if expression, true expression, and false expression.",
            Fault::DefArity => "Syntax error, def only takes 2 arguments, name and an expression.",
            Fault::FnArity => "Syntax error, fn only takes 3 arguments: function name, argument name, and function expression.",
            Fault::CallArity => "Syntax error, a fn call only takes 1 argument.",
            Fault::InvalidCondition => "If statement invalid.",
            Fault::UnknownOperator => "Error, env function not found.",
            Fault::NotCallable => "Error, function not found.",
            Fault::InvalidCallHead => "Parsing error.",
            Fault::DepthExceeded => "Error, function calls nested too deeply.",
        };
        LisperErr::Reason(String::from_str(text))
    }
}

} // verus!

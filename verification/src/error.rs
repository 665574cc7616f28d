//! Why a source text is refused by the reader, the parser or the compiler.
use vstd::prelude::*;
use vstd::string::*;
use crate::text::{append_digits, decimal};

verus! {

/// A reason to refuse a program. `S` is the type of names it carries:
/// `String` in executable code, `Seq<char>` in specifications.
#[derive(Debug)]
pub enum CompileError<S> {
    /// The text is not one well-formed S-expression.
    InvalidSexp,
    /// The S-expression is not a list.
    InvalidProgram,
    /// A second main expression.
    MultipleMain,
    /// No main expression.
    NoMain,
    /// A definition whose signature is not a list that starts with a name.
    FunctionSignature,
    /// A definition whose name is not a valid identifier.
    FunctionName(S),
    /// A parameter that is not a name.
    ParameterFormat,
    /// A parameter whose name is not a valid identifier.
    ParameterName(S),
    /// A parameter named twice.
    DuplicateParameter(S),
    /// An integer that does not fit in 32 bits.
    InvalidInteger,
    /// A name that is not a valid identifier.
    InvalidIdentifier(S),
    /// A float atom where an expression is expected.
    InvalidExpression,
    /// The empty list where an expression is expected.
    EmptyList,
    /// A list whose head is not a name.
    ExpressionFormat,
    /// A unary operator without exactly one argument.
    UnaryArity,
    /// A binary operator without exactly two arguments.
    BinaryArity,
    /// `let` without exactly bindings and a body.
    LetArity,
    /// `let` whose bindings are not a list.
    BindingsFormat,
    /// `let` with no bindings.
    EmptyBindings,
    /// A binding that is not a list.
    BindingFormat,
    /// A binding list that is not a name and one expression.
    BindElement,
    /// A binding whose name is not a valid identifier.
    BindingName,
    /// `if` without exactly three parts.
    IfArity,
    /// `block` without any expression.
    BlockArity,
    /// `loop` without exactly one body.
    LoopArity,
    /// `break` without exactly one value.
    BreakArity,
    /// `set!` without exactly a name and a value.
    SetArity,
    /// `set!` whose target is not a valid identifier.
    SetIdentifier,
    /// A call of something that is not a valid identifier.
    InvalidOperation(S),
    /// A variable that no binding or parameter introduces.
    UnboundVariable(S),
    /// Two bindings of one name in one `let`.
    DuplicateBinding,
    /// `break` outside any loop.
    BreakOutsideLoop,
    /// A call of a function that is not defined.
    UndefinedFunction(S),
    /// A call with another number of arguments than the function has
    /// parameters: the name, the expected and the given number.
    ArityMismatch(S, usize, usize),
    /// Two definitions of one function.
    DuplicateFunction(S),
    /// A stack offset, frame size or label number out of the range of `i32`.
    ArithmeticOverflow,
}

impl View for CompileError<String> {
    type V = CompileError<Seq<char>>;

    open spec fn view(&self) -> CompileError<Seq<char>> {
        match self {
            CompileError::InvalidSexp => CompileError::InvalidSexp,
            CompileError::InvalidProgram => CompileError::InvalidProgram,
            CompileError::MultipleMain => CompileError::MultipleMain,
            CompileError::NoMain => CompileError::NoMain,
            CompileError::FunctionSignature => CompileError::FunctionSignature,
            CompileError::FunctionName(s) => CompileError::FunctionName(s@),
            CompileError::ParameterFormat => CompileError::ParameterFormat,
            CompileError::ParameterName(s) => CompileError::ParameterName(s@),
            CompileError::DuplicateParameter(s) => CompileError::DuplicateParameter(s@),
            CompileError::InvalidInteger => CompileError::InvalidInteger,
            CompileError::InvalidIdentifier(s) => CompileError::InvalidIdentifier(s@),
            CompileError::InvalidExpression => CompileError::InvalidExpression,
            CompileError::EmptyList => CompileError::EmptyList,
            CompileError::ExpressionFormat => CompileError::ExpressionFormat,
            CompileError::UnaryArity => CompileError::UnaryArity,
            CompileError::BinaryArity => CompileError::BinaryArity,
            CompileError::LetArity => CompileError::LetArity,
            CompileError::BindingsFormat => CompileError::BindingsFormat,
            CompileError::EmptyBindings => CompileError::EmptyBindings,
            CompileError::BindingFormat => CompileError::BindingFormat,
            CompileError::BindElement => CompileError::BindElement,
            CompileError::BindingName => CompileError::BindingName,
            CompileError::IfArity => CompileError::IfArity,
            CompileError::BlockArity => CompileError::BlockArity,
            CompileError::LoopArity => CompileError::LoopArity,
            CompileError::BreakArity => CompileError::BreakArity,
            CompileError::SetArity => CompileError::SetArity,
            CompileError::SetIdentifier => CompileError::SetIdentifier,
            CompileError::InvalidOperation(s) => CompileError::InvalidOperation(s@),
            CompileError::UnboundVariable(s) => CompileError::UnboundVariable(s@),
            CompileError::DuplicateBinding => CompileError::DuplicateBinding,
            CompileError::BreakOutsideLoop => CompileError::BreakOutsideLoop,
            CompileError::UndefinedFunction(s) => CompileError::UndefinedFunction(s@),
            CompileError::ArityMismatch(s, a, b) => CompileError::ArityMismatch(s@, *a, *b),
            CompileError::DuplicateFunction(s) => CompileError::DuplicateFunction(s@),
            CompileError::ArithmeticOverflow => CompileError::ArithmeticOverflow,
        }
    }
}

/// The error of a specification: names as character sequences.
pub type Fault = CompileError<Seq<char>>;

/// An executable result agrees with a specified one: both succeed with the
/// same value (by view), or both fail with the same error.
pub open spec fn agrees<T: View>(r: Result<T, CompileError<String>>, s: Result<T::V, Fault>) -> bool {
    match (r, s) {
        (Ok(x), Ok(y)) => x@ == y,
        (Err(x), Err(y)) => x@ == y,
        _ => false,
    }
}

/// The message that reports an error.
pub open spec fn error_message(e: CompileError<Seq<char>>) -> Seq<char> {
    match e {
        CompileError::InvalidSexp => "Invalid"@,
        CompileError::InvalidProgram => "Invalid program"@,
        CompileError::MultipleMain => "Multiple main expressions or expression before definitions"@,
        CompileError::NoMain => "No main expression"@,
        CompileError::FunctionSignature => "Invalid function signature"@,
        CompileError::FunctionName(n) => "Invalid function name: "@ + n,
        CompileError::ParameterFormat => "Invalid parameter format"@,
        CompileError::ParameterName(n) => "Invalid parameter name: "@ + n,
        CompileError::DuplicateParameter(n) => "Duplicate parameter name: "@ + n,
        CompileError::InvalidInteger => "Invalid integer"@,
        CompileError::InvalidIdentifier(n) => "Invalid identifier: "@ + n,
        CompileError::InvalidExpression => "Invalid expression"@,
        CompileError::EmptyList => "Invalid empty list"@,
        CompileError::ExpressionFormat => "Invalid expression format"@,
        CompileError::UnaryArity => "Invalid unary op arity"@,
        CompileError::BinaryArity => "Invalid binary op arity"@,
        CompileError::LetArity => "Invalid let arity"@,
        CompileError::BindingsFormat => "Invalid let binding format"@,
        CompileError::EmptyBindings => "Invalid let binding empty"@,
        CompileError::BindingFormat => "Invalid binding format"@,
        CompileError::BindElement => "Invalid let binding: invalid bind element"@,
        CompileError::BindingName => "Invalid identifier in let binding"@,
        CompileError::IfArity => "Invalid if arity"@,
        CompileError::BlockArity => "Invalid block arity"@,
        CompileError::LoopArity => "Invalid loop arity"@,
        CompileError::BreakArity => "Invalid break arity"@,
        CompileError::SetArity => "Invalid set arity"@,
        CompileError::SetIdentifier => "Invalid set identifier"@,
        CompileError::InvalidOperation(n) => "Invalid operation: "@ + n,
        CompileError::UnboundVariable(n) => "Unbound variable identifier "@ + n,
        CompileError::DuplicateBinding => "Duplicate binding"@,
        CompileError::BreakOutsideLoop => "break outside of loop"@,
        CompileError::UndefinedFunction(n) => "Function "@ + n + " is not defined"@,
        CompileError::ArityMismatch(n, expected, got) => "Function "@ + n + " expected "@ + decimal(expected as int) + " arguments, got "@ + decimal(got as int),
        CompileError::DuplicateFunction(n) => "Duplicate function: "@ + n,
        CompileError::ArithmeticOverflow => "arithmetic overflow"@,
    }
}

impl CompileError<String> {
    /// The message that reports this error.
    pub fn message(&self) -> (r: String)
        ensures
            r@ == error_message(self@),
    {
        match self {
            CompileError::InvalidSexp => String::from_str("Invalid"),
            CompileError::InvalidProgram => String::from_str("Invalid program"),
            CompileError::MultipleMain => String::from_str("Multiple main expressions or expression before definitions"),
            CompileError::NoMain => String::from_str("No main expression"),
            CompileError::FunctionSignature => String::from_str("Invalid function signature"),
            CompileError::FunctionName(n) => {
                let mut out = String::from_str("Invalid function name: ");
                out.append(n.as_str());
                out
            },
            CompileError::ParameterFormat => String::from_str("Invalid parameter format"),
            CompileError::ParameterName(n) => {
                let mut out = String::from_str("Invalid parameter name: ");
                out.append(n.as_str());
                out
            },
            CompileError::DuplicateParameter(n) => {
                let mut out = String::from_str("Duplicate parameter name: ");
                out.append(n.as_str());
                out
            },
            CompileError::InvalidInteger => String::from_str("Invalid integer"),
            CompileError::InvalidIdentifier(n) => {
                let mut out = String::from_str("Invalid identifier: ");
                out.append(n.as_str());
                out
            },
            CompileError::InvalidExpression => String::from_str("Invalid expression"),
            CompileError::EmptyList => String::from_str("Invalid empty list"),
            CompileError::ExpressionFormat => String::from_str("Invalid expression format"),
            CompileError::UnaryArity => String::from_str("Invalid unary op arity"),
            CompileError::BinaryArity => String::from_str("Invalid binary op arity"),
            CompileError::LetArity => String::from_str("Invalid let arity"),
            CompileError::BindingsFormat => String::from_str("Invalid let binding format"),
            CompileError::EmptyBindings => String::from_str("Invalid let binding empty"),
            CompileError::BindingFormat => String::from_str("Invalid binding format"),
            CompileError::BindElement => String::from_str("Invalid let binding: invalid bind element"),
            CompileError::BindingName => String::from_str("Invalid identifier in let binding"),
            CompileError::IfArity => String::from_str("Invalid if arity"),
            CompileError::BlockArity => String::from_str("Invalid block arity"),
            CompileError::LoopArity => String::from_str("Invalid loop arity"),
            CompileError::BreakArity => String::from_str("Invalid break arity"),
            CompileError::SetArity => String::from_str("Invalid set arity"),
            CompileError::SetIdentifier => String::from_str("Invalid set identifier"),
            CompileError::InvalidOperation(n) => {
                let mut out = String::from_str("Invalid operation: ");
                out.append(n.as_str());
                out
            },
            CompileError::UnboundVariable(n) => {
                let mut out = String::from_str("Unbound variable identifier ");
                out.append(n.as_str());
                out
            },
            CompileError::DuplicateBinding => String::from_str("Duplicate binding"),
            CompileError::BreakOutsideLoop => String::from_str("break outside of loop"),
            CompileError::UndefinedFunction(n) => {
                let mut out = String::from_str("Function ");
                out.append(n.as_str());
                out.append(" is not defined");
                out
            },
            CompileError::ArityMismatch(n, expected, got) => {
                let mut out = String::from_str("Function ");
                out.append(n.as_str());
                out.append(" expected ");
                append_digits(&mut out, *expected as u64);
                out.append(" arguments, got ");
                append_digits(&mut out, *got as u64);
                out
            },
            CompileError::DuplicateFunction(n) => {
                let mut out = String::from_str("Duplicate function: ");
                out.append(n.as_str());
                out
            },
            CompileError::ArithmeticOverflow => String::from_str("arithmetic overflow"),
        }
    }
}

} // verus!

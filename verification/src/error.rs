//! Error types for every layer of the symbolic execution system.
use vstd::prelude::*;
use crate::fmt::{decimal_nat, push_decimal};
use crate::text::{chars_of, string_from_chars};

verus! {

/// Result type of symbolic execution operations.
pub type SymExResult<T> = Result<T, SymExError>;

/// Errors of the symbolic execution system.
#[derive(Debug, Clone)]
pub enum SymExError {
    /// Operation not supported for the symbolic type.
    InvalidOperation(String),
    /// Incompatible types in an operation.
    TypeMismatch { expected: String, found: String },
    /// Arithmetic overflow in a symbolic operation.
    OverflowError(String),
    /// Invalid expression structure.
    MalformedExpression(String),
    /// Reference to an undefined symbolic variable.
    UnboundVariable(String),
    /// Circular dependency in expressions.
    CircularReference(String),
    /// The solver exceeded its time limit.
    SolverTimeout,
    /// Internal solver error or invalid input.
    SolverError(String),
    /// Concrete values could not be extracted from a model.
    ModelExtractionError(String),
    /// Inconsistent internal state.
    StateCorruption(String),
    /// Pop from an empty backtracking stack.
    StackUnderflow,
    /// Out of memory or another resource.
    ResourceExhaustion(String),
    /// A variable registered twice.
    DuplicateVariable(String),
    /// Invalid parameter of a string operation.
    InvalidStringOperation(String),
    /// Empty pattern in a replace operation.
    EmptyPatternError,
    /// Non-ASCII character in a string constant.
    NonAsciiCharacter { character: char, position: usize },
    /// Generic error with a message.
    Generic(String),
    /// I/O related error.
    IoError(String),
}

/// Mathematical model of an error: messages as character sequences.
pub enum ErrorV {
    InvalidOperation(Seq<char>),
    TypeMismatch { expected: Seq<char>, found: Seq<char> },
    OverflowError(Seq<char>),
    MalformedExpression(Seq<char>),
    UnboundVariable(Seq<char>),
    CircularReference(Seq<char>),
    SolverTimeout,
    SolverError(Seq<char>),
    ModelExtractionError(Seq<char>),
    StateCorruption(Seq<char>),
    StackUnderflow,
    ResourceExhaustion(Seq<char>),
    DuplicateVariable(Seq<char>),
    InvalidStringOperation(Seq<char>),
    EmptyPatternError,
    NonAsciiCharacter { character: char, position: usize },
    Generic(Seq<char>),
    IoError(Seq<char>),
}

impl View for SymExError {
    type V = ErrorV;

    open spec fn view(&self) -> ErrorV {
        match self {
            SymExError::InvalidOperation(m) => ErrorV::InvalidOperation(m@),
            SymExError::TypeMismatch { expected, found } => ErrorV::TypeMismatch {
                expected: expected@,
                found: found@,
            },
            SymExError::OverflowError(m) => ErrorV::OverflowError(m@),
            SymExError::MalformedExpression(m) => ErrorV::MalformedExpression(m@),
            SymExError::UnboundVariable(m) => ErrorV::UnboundVariable(m@),
            SymExError::CircularReference(m) => ErrorV::CircularReference(m@),
            SymExError::SolverTimeout => ErrorV::SolverTimeout,
            SymExError::SolverError(m) => ErrorV::SolverError(m@),
            SymExError::ModelExtractionError(m) => ErrorV::ModelExtractionError(m@),
            SymExError::StateCorruption(m) => ErrorV::StateCorruption(m@),
            SymExError::StackUnderflow => ErrorV::StackUnderflow,
            SymExError::ResourceExhaustion(m) => ErrorV::ResourceExhaustion(m@),
            SymExError::DuplicateVariable(m) => ErrorV::DuplicateVariable(m@),
            SymExError::InvalidStringOperation(m) => ErrorV::InvalidStringOperation(m@),
            SymExError::EmptyPatternError => ErrorV::EmptyPatternError,
            SymExError::NonAsciiCharacter { character, position } => ErrorV::NonAsciiCharacter {
                character: *character,
                position: *position,
            },
            SymExError::Generic(m) => ErrorV::Generic(m@),
            SymExError::IoError(m) => ErrorV::IoError(m@),
        }
    }
}

/// The human-readable message of an error.
pub open spec fn error_message(e: ErrorV) -> Seq<char> {
    match e {
        ErrorV::InvalidOperation(m) => "Invalid operation: "@ + m,
        ErrorV::TypeMismatch { expected, found } => "Type mismatch: expected "@ + expected
            + ", found "@ + found,
        ErrorV::OverflowError(m) => "Arithmetic overflow: "@ + m,
        ErrorV::MalformedExpression(m) => "Malformed expression: "@ + m,
        ErrorV::UnboundVariable(m) => "Unbound variable: "@ + m,
        ErrorV::CircularReference(m) => "Circular reference: "@ + m,
        ErrorV::SolverTimeout => "SMT solver timeout"@,
        ErrorV::SolverError(m) => "SMT solver error: "@ + m,
        ErrorV::ModelExtractionError(m) => "Model extraction error: "@ + m,
        ErrorV::StateCorruption(m) => "State corruption: "@ + m,
        ErrorV::StackUnderflow => "Backtracking stack underflow"@,
        ErrorV::ResourceExhaustion(m) => "Resource exhaustion: "@ + m,
        ErrorV::DuplicateVariable(m) => "Duplicate variable: "@ + m,
        ErrorV::InvalidStringOperation(m) => "Invalid string operation: "@ + m,
        ErrorV::EmptyPatternError => "Empty pattern in string replacement"@,
        ErrorV::NonAsciiCharacter { character, position } => "Non-ASCII character '"@ + seq![
            character,
        ] + "' at position "@ + decimal_nat(position as nat),
        ErrorV::Generic(m) => "Error: "@ + m,
        ErrorV::IoError(m) => "I/O error: "@ + m,
    }
}

fn join2(a: &str, b: &String) -> (r: String)
    ensures
        r@ == a@ + b@,
{
    let mut s = String::from_str(a);
    s.append(b.as_str());
    s
}

impl SymExError {
    /// The human-readable message of this error (what `Display` shows).
    pub fn to_message(&self) -> (r: String)
        ensures
            r@ == error_message(self@),
    {
        match self {
            SymExError::InvalidOperation(m) => join2("Invalid operation: ", m),
            SymExError::TypeMismatch { expected, found } => {
                let mut s = String::from_str("Type mismatch: expected ");
                s.append(expected.as_str());
                s.append(", found ");
                s.append(found.as_str());
                s
            },
            SymExError::OverflowError(m) => join2("Arithmetic overflow: ", m),
            SymExError::MalformedExpression(m) => join2("Malformed expression: ", m),
            SymExError::UnboundVariable(m) => join2("Unbound variable: ", m),
            SymExError::CircularReference(m) => join2("Circular reference: ", m),
            SymExError::SolverTimeout => String::from_str("SMT solver timeout"),
            SymExError::SolverError(m) => join2("SMT solver error: ", m),
            SymExError::ModelExtractionError(m) => join2("Model extraction error: ", m),
            SymExError::StateCorruption(m) => join2("State corruption: ", m),
            SymExError::StackUnderflow => String::from_str("Backtracking stack underflow"),
            SymExError::ResourceExhaustion(m) => join2("Resource exhaustion: ", m),
            SymExError::DuplicateVariable(m) => join2("Duplicate variable: ", m),
            SymExError::InvalidStringOperation(m) => join2("Invalid string operation: ", m),
            SymExError::EmptyPatternError => String::from_str(
                "Empty pattern in string replacement",
            ),
            SymExError::NonAsciiCharacter { character, position } => {
                let mut v = chars_of("Non-ASCII character '");
                v.push(*character);
                let tail = chars_of("' at position ");
                let mut k: usize = 0;
                let ghost start = v@;
                while k < tail.len()
                    invariant
                        k <= tail@.len(),
                        v@ == start + tail@.take(k as int),
                    decreases tail@.len() - k,
                {
                    v.push(tail[k]);
                    k = k + 1;
                    assert(v@ =~= start + tail@.take(k as int));
                }
                assert(tail@.take(tail@.len() as int) == tail@);
                push_decimal(&mut v, *position as u64);
                assert(v@ =~= error_message(self@));
                string_from_chars(v.as_slice())
            },
            SymExError::Generic(m) => join2("Error: ", m),
            SymExError::IoError(m) => join2("I/O error: ", m),
        }
    }
}

} // verus!

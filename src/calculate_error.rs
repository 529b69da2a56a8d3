use vstd::prelude::*;

verus! {

/// The kinds of failure that evaluating an expression can end in.
#[derive(Clone, Copy, Debug, PartialEq, Eq, Structural)]
pub enum ErrorType {
    NotMathExpr,
    BracketsNotAgreed,
    OperandNotNumber,
    MissedOperation,
    MissedOperand,
    UnknownError,
}

/// The fixed human-readable message that goes with each kind of error.
pub open spec fn error_message(error_type: ErrorType) -> Seq<char> {
    match error_type {
        ErrorType::NotMathExpr => "Input is not a mathematical expression."@,
        ErrorType::BracketsNotAgreed => "Brackets in the expression are not agreed."@,
        ErrorType::OperandNotNumber => "One of operands is not a correct number."@,
        ErrorType::MissedOperation => "Missed operation."@,
        ErrorType::MissedOperand => "Missed operand."@,
        ErrorType::UnknownError => "Unknown error."@,
    }
}

/// An error of evaluation: its kind and the message shown to the user.
#[derive(Debug)]
pub struct Error {
    error_type: ErrorType,
    details: String,
}

/// The name under which the error type is also known.
pub type CalculateError = Error;

impl Error {
    /// The kind of this error.
    pub closed spec fn kind(&self) -> ErrorType {
        self.error_type
    }

    /// The message of this error.
    pub closed spec fn message(&self) -> Seq<char> {
        self.details@
    }

    /// Well-formed: the message is the one fixed for the kind.
    pub open spec fn wf(&self) -> bool {
        self.message() == error_message(self.kind())
    }

    pub fn new(error_type: ErrorType) -> (r: Error)
        ensures
            r.kind() == error_type,
            r.wf(),
    {
        let details = match error_type {
            ErrorType::NotMathExpr => String::from_str("Input is not a mathematical expression."),
            ErrorType::BracketsNotAgreed => String::from_str("Brackets in the expression are not agreed."),
            ErrorType::OperandNotNumber => String::from_str("One of operands is not a correct number."),
            ErrorType::MissedOperation => String::from_str("Missed operation."),
            ErrorType::MissedOperand => String::from_str("Missed operand."),
            ErrorType::UnknownError => String::from_str("Unknown error."),
        };
        Error { error_type, details }
    }

    /// The kind of this error.
    pub fn error_type(&self) -> (r: ErrorType)
        ensures
            r == self.kind(),
    {
        self.error_type
    }

    /// The message of this error, as it is shown to the user.
    pub fn to_string(&self) -> (r: String)
        ensures
            r@ == self.message(),
    {
        self.details.clone()
    }
}

impl PartialEq for Error {
    fn eq(&self, other: &Error) -> (r: bool)
        ensures
            r == (self.kind() == other.kind() && self.message() == other.message()),
    {
        let same_kind = self.error_type == other.error_type;
        let same_details = self.details == other.details;
        same_kind && same_details
    }
}

impl vstd::std_specs::cmp::PartialEqSpecImpl for Error {
    open spec fn obeys_eq_spec() -> bool {
        true
    }

    open spec fn eq_spec(&self, other: &Error) -> bool {
        self.kind() == other.kind() && self.message() == other.message()
    }
}

} // verus!

use vstd::prelude::*;

pub mod calculate;
pub mod calculate_error;
pub mod postfix;
pub mod reduce;
pub mod validate;

pub use calculate::{plan_calculation, Plan};
pub use calculate_error::{CalculateError, Error, ErrorType};
pub use postfix::{convert, Oper, Postfix, Token, Value};
pub use reduce::{recursive_calculate, Step};
pub use validate::{are_brackets_agreed, is_math_expr};

//! Literal values of the Sway compiler and the encoding of script arguments
//! into call data, with their contracts proved by Verus.

pub mod bignat;
pub mod decimal;
pub mod u256;
pub mod literal;
pub mod abi_type;
pub mod call;
pub mod schema;

pub use bignat::BigNat;
pub use decimal::IntErrorKind;
pub use u256::U256;
pub use literal::{CompileError, IntegerBits, Literal, Span, TypeInfo};
pub use abi_type::{Type, UnsupportedTypeName};
pub use call::{AbiFunction, CallData, CallError, ScriptCallHandler, Token};

//! A strongly typed amount of gas: a 64-bit count of the smallest unit, with
//! unit conversions, overflow-aware arithmetic, exact decimal parsing with
//! unit suffixes, a rounded human-readable rendering, and the binary and
//! string forms used to store and exchange amounts.
pub mod codec;
pub mod decimal;
pub mod digits;
pub mod display;
pub mod error;
pub mod gas;
pub mod text;

pub use self::decimal::{parse_decimal_number, DecimalNumberParsingError};
pub use self::error::NearGasError;
pub use self::gas::{NearGas, ONE_GIGA_GAS, ONE_PETA_GAS, ONE_TERA_GAS};

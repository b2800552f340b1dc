//! Verified core of a wallet/swap engine: scaled-decimal conversion,
//! quote classification and selection over signed swap orders, the shared
//! worker state with its bounded error queue, and the retry state machines
//! used to acquire an exact-value input and to fulfill an order.

pub mod alist;
pub mod decimal;
pub mod plan;
pub mod quote;
pub mod selection;
pub mod swap;
pub mod types;
pub mod worker;

pub use decimal::{from_smallest_units, to_smallest_units, ConvError, ScaledDecimal};
pub use quote::{ClassificationError, QuoteInfo, QuoteSide, SciAmounts, ValidatedQuote};
pub use selection::QuoteSelection;
pub use types::{Amount, Ratio, TokenId, TokenInfo};
pub use worker::{FeeTable, WorkerInitError, WorkerState};

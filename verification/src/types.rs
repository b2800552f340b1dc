//! Token identifiers, amounts, per-token display metadata, and exact price
//! ratios.

use vstd::prelude::*;
use crate::decimal::{
    spec_to_smallest_units, to_smallest_units, decimal_from_parts, parse_decimal, parsed_decimal,
    ConvError, ScaledDecimal,
};

verus! {

/// Identifier of a token on the network.
#[derive(Clone, Copy, Debug, PartialEq, Eq, Hash, Structural)]
pub struct TokenId(pub u64);

/// A quantity of a token, counted in the token's smallest units.
#[derive(Clone, Copy, Debug, PartialEq, Eq, Structural)]
pub struct Amount {
    pub value: u64,
    pub token_id: TokenId,
}

impl Amount {
    pub fn new(value: u64, token_id: TokenId) -> (r: Self)
        ensures
            r == (Amount { value, token_id }),
    {
        Amount { value, token_id }
    }
}

/// Largest number of decimals a token may declare.  This keeps every price
/// numerator `value * 10^decimals` within `u128` (`10^19 < 2^64`).
pub const MAX_DECIMALS: u32 = 19;

/// Display and fee metadata for one token.
#[derive(Debug)]
pub struct TokenInfo {
    pub token_id: TokenId,
    pub symbol: String,
    pub fee: u64,
    pub decimals: u32,
}

impl Clone for TokenInfo {
    fn clone(&self) -> (r: Self)
        ensures
            r.token_id == self.token_id,
            r.symbol@ == self.symbol@,
            r.fee == self.fee,
            r.decimals == self.decimals,
            r.wf() == self.wf(),
    {
        TokenInfo {
            token_id: self.token_id,
            symbol: self.symbol.clone(),
            fee: self.fee,
            decimals: self.decimals,
        }
    }
}

impl TokenInfo {
    /// Well-formed: the declared number of decimals is supported.
    pub open spec fn wf(&self) -> bool {
        self.decimals <= MAX_DECIMALS
    }

    /// Convert a scaled decimal value to a `u64` amount in this token's
    /// smallest units, rounding halves away from zero.
    pub fn try_decimal_to_u64(&self, scaled_decimal: &ScaledDecimal) -> (r: Result<u64, ConvError>)
        requires
            self.wf(),
            scaled_decimal.wf(),
        ensures
            r == spec_to_smallest_units(*scaled_decimal, self.decimals),
    {
        to_smallest_units(scaled_decimal, self.decimals)
    }

    /// Parse a user-entered decimal string and convert it to a `u64` amount
    /// in this token's smallest units.  A string that does not parse returns
    /// the parser's message; an unrepresentable value returns "decimal
    /// overflow" or "u64 overflow".
    pub fn try_scaled_to_u64(&self, scaled_value_str: &str) -> (r: Result<u64, String>)
        requires
            self.wf(),
        ensures
            parsed_decimal(scaled_value_str@) is None ==> r is Err,
            parsed_decimal(scaled_value_str@) matches Some(t) ==> ({
                match spec_to_smallest_units(decimal_from_parts(t.0 as int, t.1), self.decimals) {
                    Ok(v) => r == Ok::<u64, String>(v),
                    Err(e) => r is Err && r->Err_0@ == (if e is DecimalOverflow {
                        "decimal overflow"@
                    } else {
                        "u64 overflow"@
                    }),
                }
            }),
    {
        match parse_decimal(scaled_value_str) {
            Ok(d) => match self.try_decimal_to_u64(&d) {
                Ok(v) => Ok(v),
                Err(e) => Err(e.message()),
            },
            Err(msg) => Err(msg),
        }
    }
}

/// An exact nonnegative rational number `num / den`.
#[derive(Clone, Copy, Debug, PartialEq, Eq, Structural)]
pub struct Ratio {
    pub num: u128,
    pub den: u128,
}

impl Ratio {
    /// Well-formed: the denominator is positive.
    pub open spec fn wf(&self) -> bool {
        self.den > 0
    }
}

} // verus!

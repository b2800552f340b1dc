//! The decisions behind the consumer-triggered actions: validating a send,
//! planning a swap against the current quote book, and planning a new
//! offer.  The surrounding input fields, remote calls and rendering live
//! outside the library; these functions take the entered text and the
//! current balances as plain values and return what to submit, or the
//! failure to display.

use vstd::prelude::*;
use crate::decimal::{
    decimal_from_parts, checked_mul, parse_decimal, parsed_decimal, spec_checked_mul, spec_parsed,
    spec_to_smallest_units, ConvError, ScaledDecimal,
};
use crate::quote::ValidatedQuote;
use crate::selection::{best_candidate_at, spec_candidate, QuoteSelection};
use crate::types::{Amount, TokenId, TokenInfo};

verus! {

/// The smallest-unit amount a user-entered decimal string denotes for a
/// token, when it parses and is representable.
pub open spec fn spec_parsed_amount(s: Seq<char>, info: TokenInfo) -> Option<u64> {
    match parsed_decimal(s) {
        Some(t) => match spec_to_smallest_units(decimal_from_parts(t.0 as int, t.1),
            info.decimals) {
            Ok(v) => Some(v),
            Err(_) => None,
        },
        None => None,
    }
}

/// Validate a user-entered send: parse the amount, add the token's fee,
/// and check the balance covers both.  Returns the smallest-unit value to
/// send.
pub fn plan_send(info: &TokenInfo, scaled_value_str: &str, balance: u64) -> (r: Result<u64, String>)
    requires
        info.wf(),
    ensures
        r matches Ok(v) ==> spec_parsed_amount(scaled_value_str@, *info) == Some(v) && v
            + info.fee <= balance,
        r is Ok <==> (spec_parsed_amount(scaled_value_str@, *info) matches Some(v) && v + info.fee
            <= balance),
        r matches Err(m) ==> (spec_parsed_amount(scaled_value_str@, *info) matches Some(v) ==> (
        if v + info.fee > u64::MAX {
            m@ == "u64 overflow with fee"@
        } else {
            m@ == "insufficient funds"@
        })),
{
    let u64_value: u64 = match info.try_scaled_to_u64(scaled_value_str) {
        Ok(v) => v,
        Err(m) => {
            return Err(m);
        }
    };
    match u64_value.checked_add(info.fee) {
        Some(with_fee) => {
            if with_fee > balance {
                Err("insufficient funds".to_owned())
            } else {
                Ok(u64_value)
            }
        }
        None => Err("u64 overflow with fee".to_owned()),
    }
}

/// Plan a swap: parse the desired target amount, pick the cheapest quote
/// that supplies it, and check the balance covers the cost and the fee.
pub fn plan_swap(
    quote_book: &[ValidatedQuote],
    from_info: &TokenInfo,
    to_info: &TokenInfo,
    to_value_str: &str,
    from_balance: u64,
) -> (r: Result<QuoteSelection, String>)
    requires
        from_info.wf(),
        to_info.wf(),
        forall|i: int| 0 <= i < quote_book@.len() ==> (#[trigger] quote_book@[i]).wf(),
    ensures
        r is Ok <==> (from_info.token_id != to_info.token_id && (spec_parsed_amount(
            to_value_str@,
            *to_info,
        ) matches Some(v) && (exists|i: int, pfv: u64, cost: u64|
            #[trigger] best_candidate_at(
                quote_book@,
                from_info.token_id,
                Amount { value: v, token_id: to_info.token_id },
                i,
                pfv,
                cost,
            ) && cost + from_info.fee <= from_balance))),
        r matches Ok(sel) ==> (spec_parsed_amount(to_value_str@, *to_info) matches Some(v)
            && (exists|i: int|
            best_candidate_at(
                quote_book@,
                from_info.token_id,
                Amount { value: v, token_id: to_info.token_id },
                i,
                sel.partial_fill_value,
                sel.from_u64_value,
            ) && sel.sci@ == (#[trigger] quote_book@[i]).sci@) && sel.from_u64_value
            + from_info.fee <= from_balance && sel.from_value_decimal == (ScaledDecimal {
            negative: false,
            mantissa: sel.from_u64_value as u128,
            scale: from_info.decimals,
        })),
        r matches Err(m) ==> ({
            if from_info.token_id == to_info.token_id {
                m@ == ""@
            } else {
                match parsed_decimal(to_value_str@) {
                    // the parser's own message is passed through
                    None => true,
                    Some(t) => match spec_to_smallest_units(
                        decimal_from_parts(t.0 as int, t.1),
                        to_info.decimals,
                    ) {
                        Err(e) => m@ == (if e is DecimalOverflow {
                            "decimal overflow"@
                        } else {
                            "u64 overflow"@
                        }),
                        Ok(v) => {
                            if forall|i: int| 0 <= i < quote_book@.len()
                                ==> #[trigger] spec_candidate(
                                quote_book@[i],
                                from_info.token_id,
                                Amount { value: v, token_id: to_info.token_id },
                            ) is None {
                                m@ == "insufficient liquidity"@
                            } else {
                                m@ == "insufficient funds"@
                            }
                        }
                    },
                }
            }
        }),
{
    if from_info.token_id == to_info.token_id {
        return Err("".to_owned());
    }
    let to_u64_value: u64 = match to_info.try_scaled_to_u64(to_value_str) {
        Ok(v) => v,
        Err(m) => {
            return Err(m);
        }
    };
    let to_amount = Amount::new(to_u64_value, to_info.token_id);
    let qs: QuoteSelection = match QuoteSelection::new(
        quote_book,
        from_info.token_id,
        from_info,
        to_amount,
    ) {
        Ok(qs) => qs,
        Err(m) => {
            proof {
                assert forall|i: int, pfv: u64, cost: u64| !best_candidate_at(
                    quote_book@,
                    from_info.token_id,
                    to_amount,
                    i,
                    pfv,
                    cost,
                ) by {
                    if best_candidate_at(quote_book@, from_info.token_id, to_amount, i, pfv,
                        cost) {
                        assert(spec_candidate(quote_book@[i], from_info.token_id, to_amount)
                            is None);
                    }
                }
            }
            return Err(m);
        }
    };
    match qs.from_u64_value.checked_add(from_info.fee) {
        Some(total) => {
            if from_balance < total {
                proof {
                    lemma_best_cost_unique(
                        quote_book@,
                        from_info.token_id,
                        to_amount,
                        qs.partial_fill_value,
                        qs.from_u64_value,
                    );
                }
                Err("insufficient funds".to_owned())
            } else {
                Ok(qs)
            }
        }
        None => {
            proof {
                lemma_best_cost_unique(
                    quote_book@,
                    from_info.token_id,
                    to_amount,
                    qs.partial_fill_value,
                    qs.from_u64_value,
                );
            }
            Err("insufficient funds".to_owned())
        }
    }
}

/// Any two best candidates of one book carry the same cost.
proof fn lemma_best_cost_unique(
    book: Seq<ValidatedQuote>,
    from_token_id: TokenId,
    to_amount: Amount,
    pfv: u64,
    cost: u64,
)
    requires
        exists|i: int| #[trigger] best_candidate_at(book, from_token_id, to_amount, i, pfv, cost),
    ensures
        forall|j: int, pfv2: u64, cost2: u64|
            #[trigger] best_candidate_at(book, from_token_id, to_amount, j, pfv2, cost2)
                ==> cost2 == cost,
{
    let i = choose|i: int| #[trigger] best_candidate_at(book, from_token_id, to_amount, i, pfv,
        cost);
    assert forall|j: int, pfv2: u64, cost2: u64| #[trigger] best_candidate_at(
        book,
        from_token_id,
        to_amount,
        j,
        pfv2,
        cost2,
    ) implies cost2 == cost by {
        assert(spec_candidate(book[i], from_token_id, to_amount) == Some((pfv, cost)));
        assert(spec_candidate(book[j], from_token_id, to_amount) == Some((pfv2, cost2)));
    }
}

/// Which side of a new offer is being planned: buying the base token with
/// the counter token, or selling the base token for the counter token.
#[derive(Clone, Copy, Debug, PartialEq, Eq, Structural)]
pub enum OfferSide {
    Buy,
    Sell,
}

/// Why a new offer cannot be submitted as entered.
#[derive(Debug)]
pub enum OfferError {
    /// The entered volume does not parse; carries the parser's message.
    BadVolume(String),
    /// The entered price does not parse; carries the parser's message.
    BadPrice(String),
    /// The product of price and volume is not representable.
    DecimalOverflow,
    /// A leg's amount cannot be represented in smallest units.
    Conversion(ConvError),
    /// The balance of this token does not cover the offered leg.
    InsufficientBalance(TokenId),
}

/// What planning an offer returns: the amount to pledge (`from`) and the
/// amount asked in return (`to`), as
/// `volume * price` of the counter token against `volume` of the base
/// token; or the first failure, checking the volume text, the price text,
/// the product, the paid leg's conversion, the received leg's conversion
/// and the balance, in that order.
pub open spec fn spec_plan_offer(
    base_info: TokenInfo,
    counter_info: TokenInfo,
    price_str: Seq<char>,
    volume_str: Seq<char>,
    base_balance: u64,
    counter_balance: u64,
    side: OfferSide,
    r: Result<(Amount, Amount), OfferError>,
) -> bool {
    match spec_parsed(volume_str) {
        None => r matches Err(e) && e is BadVolume,
        Some(volume) => match spec_parsed(price_str) {
            None => r matches Err(e) && e is BadPrice,
            Some(price) => match spec_checked_mul(volume, price) {
                None => r matches Err(e) && e is DecimalOverflow,
                Some(counter_volume) => {
                    let base_conv = spec_to_smallest_units(volume, base_info.decimals);
                    let counter_conv = spec_to_smallest_units(
                        counter_volume,
                        counter_info.decimals,
                    );
                    match side {
                        OfferSide::Buy => match counter_conv {
                            Err(e) => r == Err::<(Amount, Amount), OfferError>(
                                OfferError::Conversion(e),
                            ),
                            Ok(counter_u64) => match base_conv {
                                Err(e) => r == Err::<(Amount, Amount), OfferError>(
                                    OfferError::Conversion(e),
                                ),
                                Ok(base_u64) => {
                                    if counter_u64 <= counter_balance {
                                        r == Ok::<(Amount, Amount), OfferError>(
                                            (
                                                Amount {
                                                    value: counter_u64,
                                                    token_id: counter_info.token_id,
                                                },
                                                Amount {
                                                    value: base_u64,
                                                    token_id: base_info.token_id,
                                                },
                                            ),
                                        )
                                    } else {
                                        r matches Err(e) && e matches
                                            OfferError::InsufficientBalance(t)
                                            && t == counter_info.token_id
                                    }
                                }
                            },
                        },
                        OfferSide::Sell => match base_conv {
                            Err(e) => r == Err::<(Amount, Amount), OfferError>(
                                OfferError::Conversion(e),
                            ),
                            Ok(base_u64) => match counter_conv {
                                Err(e) => r == Err::<(Amount, Amount), OfferError>(
                                    OfferError::Conversion(e),
                                ),
                                Ok(counter_u64) => {
                                    if base_u64 <= base_balance {
                                        r == Ok::<(Amount, Amount), OfferError>(
                                            (
                                                Amount {
                                                    value: base_u64,
                                                    token_id: base_info.token_id,
                                                },
                                                Amount {
                                                    value: counter_u64,
                                                    token_id: counter_info.token_id,
                                                },
                                            ),
                                        )
                                    } else {
                                        r matches Err(e) && e matches
                                            OfferError::InsufficientBalance(t)
                                            && t == base_info.token_id
                                    }
                                }
                            },
                        },
                    }
                }
            },
        },
    }
}

/// Plan one side of a new offer from the entered price and volume: compute
/// both legs' smallest-unit amounts and check the pledged leg is within
/// the balance.  Returns the amount to pledge and the amount to ask.
pub fn plan_offer(
    base_info: &TokenInfo,
    counter_info: &TokenInfo,
    price_str: &str,
    volume_str: &str,
    base_balance: u64,
    counter_balance: u64,
    side: OfferSide,
) -> (r: Result<(Amount, Amount), OfferError>)
    requires
        base_info.wf(),
        counter_info.wf(),
    ensures
        spec_plan_offer(
            *base_info,
            *counter_info,
            price_str@,
            volume_str@,
            base_balance,
            counter_balance,
            side,
            r,
        ),
{
    let volume: ScaledDecimal = match parse_decimal(volume_str) {
        Ok(d) => d,
        Err(m) => {
            return Err(OfferError::BadVolume(m));
        }
    };
    let price: ScaledDecimal = match parse_decimal(price_str) {
        Ok(d) => d,
        Err(m) => {
            return Err(OfferError::BadPrice(m));
        }
    };
    let counter_volume: ScaledDecimal = match checked_mul(&volume, &price) {
        Some(d) => d,
        None => {
            return Err(OfferError::DecimalOverflow);
        }
    };
    match side {
        OfferSide::Buy => {
            let counter_u64: u64 = match counter_info.try_decimal_to_u64(&counter_volume) {
                Ok(v) => v,
                Err(e) => {
                    return Err(OfferError::Conversion(e));
                }
            };
            let base_u64: u64 = match base_info.try_decimal_to_u64(&volume) {
                Ok(v) => v,
                Err(e) => {
                    return Err(OfferError::Conversion(e));
                }
            };
            if counter_u64 <= counter_balance {
                Ok(
                    (
                        Amount::new(counter_u64, counter_info.token_id),
                        Amount::new(base_u64, base_info.token_id),
                    ),
                )
            } else {
                Err(OfferError::InsufficientBalance(counter_info.token_id))
            }
        }
        OfferSide::Sell => {
            let base_u64: u64 = match base_info.try_decimal_to_u64(&volume) {
                Ok(v) => v,
                Err(e) => {
                    return Err(OfferError::Conversion(e));
                }
            };
            let counter_u64: u64 = match counter_info.try_decimal_to_u64(&counter_volume) {
                Ok(v) => v,
                Err(e) => {
                    return Err(OfferError::Conversion(e));
                }
            };
            if base_u64 <= base_balance {
                Ok(
                    (
                        Amount::new(base_u64, base_info.token_id),
                        Amount::new(counter_u64, counter_info.token_id),
                    ),
                )
            } else {
                Err(OfferError::InsufficientBalance(base_info.token_id))
            }
        }
    }
}

} // verus!

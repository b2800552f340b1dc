//! Validated quotes and their classification onto one side of a trading
//! pair's book.
//!
//! A quote wraps a signed order pledging its pseudo-output in exchange for
//! the listed outputs.  Classifying a quote against a `(base, counter)` pair
//! determines whether the order offers the base token (an ask) or the
//! counter token (a bid), checks that the order has one of the two supported
//! shapes, and computes its displayed volume and price.

use vstd::prelude::*;
use crate::decimal::{lemma_pow10_19_value, lemma_pow10_pos, pow10, pow10_u128, ScaledDecimal};
use crate::types::{Amount, Ratio, TokenId, TokenInfo};

verus! {

/// Bound on the output lists of a validated order decomposition; an order
/// with more outputs than this is not considered (the network's own
/// transaction rules keep real orders far below it).
pub const MAX_SCI_OUTPUTS: usize = 64;

/// The balance decomposition of a validated signed order: the pledged input
/// (pseudo-output), the change returned for the unfilled portion, the
/// outputs scaled by the degree of fill, and the outputs owed in full.
#[derive(Debug)]
pub struct SciAmounts {
    pub pseudo_output: Amount,
    pub partial_fill_change: Option<Amount>,
    pub partial_fill_outputs: Vec<Amount>,
    pub required_outputs: Vec<Amount>,
}

impl SciAmounts {
    /// Well-formed: the output lists are of supported length.
    pub open spec fn wf(&self) -> bool {
        self.partial_fill_outputs@.len() <= MAX_SCI_OUTPUTS
            && self.required_outputs@.len() <= MAX_SCI_OUTPUTS
    }

    /// Field-by-field agreement (two decompositions with equal contents).
    pub open spec fn equiv(self, other: Self) -> bool {
        self.pseudo_output == other.pseudo_output
            && self.partial_fill_change == other.partial_fill_change
            && self.partial_fill_outputs@ == other.partial_fill_outputs@
            && self.required_outputs@ == other.required_outputs@
    }
}

/// Copy a list of amounts.
fn clone_amounts(v: &Vec<Amount>) -> (r: Vec<Amount>)
    ensures
        r@ == v@,
{
    let mut r: Vec<Amount> = Vec::new();
    let mut i: usize = 0;
    while i < v.len()
        invariant
            i <= v.len(),
            r@ == v@.subrange(0, i as int),
        decreases v.len() - i,
    {
        r.push(v[i]);
        proof {
            assert(r@ =~= v@.subrange(0, i + 1));
        }
        i = i + 1;
    }
    proof {
        assert(r@ =~= v@);
    }
    r
}

impl Clone for SciAmounts {
    fn clone(&self) -> (r: Self)
        ensures
            r.equiv(*self),
    {
        SciAmounts {
            pseudo_output: self.pseudo_output,
            partial_fill_change: self.partial_fill_change,
            partial_fill_outputs: clone_amounts(&self.partial_fill_outputs),
            required_outputs: clone_amounts(&self.required_outputs),
        }
    }
}

/// A quote from the quoting service whose signed order has already passed
/// structural and cryptographic validation.
#[derive(Debug)]
pub struct ValidatedQuote {
    /// The signed order itself, as the encoded bytes received from the
    /// service; carried through so that a selection can hand it back.
    pub sci: Vec<u8>,
    /// The order's balance decomposition, produced by the validation that
    /// precedes construction.
    pub amounts: SciAmounts,
    /// Timestamp reported by the quoting service.
    pub timestamp: u64,
}

impl ValidatedQuote {
    /// Well-formed: the decomposition is of supported shape.
    pub open spec fn wf(&self) -> bool {
        self.amounts.wf()
    }

    /// Field-by-field agreement (two quotes with equal contents).
    pub open spec fn equiv(self, other: Self) -> bool {
        self.sci@ == other.sci@ && self.amounts.equiv(other.amounts)
            && self.timestamp == other.timestamp
    }

    /// Wrap an already-validated order.  `sci` is the signed order's encoded
    /// bytes and `amounts` its balance decomposition, both as produced by
    /// the validation step.
    pub fn new(sci: Vec<u8>, amounts: SciAmounts, timestamp: u64) -> (r: Self)
        requires
            amounts.wf(),
        ensures
            r.wf(),
            r.sci@ == sci@,
            r.amounts == amounts,
            r.timestamp == timestamp,
    {
        ValidatedQuote { sci, amounts, timestamp }
    }
}

impl Clone for ValidatedQuote {
    fn clone(&self) -> (r: Self)
        ensures
            r.equiv(*self),
    {
        let sci = self.sci.clone();
        proof {
            assert(sci@ =~= self.sci@);
        }
        ValidatedQuote { sci, amounts: self.amounts.clone(), timestamp: self.timestamp }
    }
}

/// Which side of a pair's book a quote falls on.
#[derive(Clone, Copy, Debug, PartialEq, Eq, Structural)]
pub enum QuoteSide {
    Bid,
    Ask,
}

/// Why a quote could not be classified onto the requested pair.
#[derive(Clone, Copy, Debug, PartialEq, Eq, Structural)]
pub enum ClassificationError {
    /// No token metadata is known for the base or the counter token.
    UnknownToken,
    /// The order's pseudo-output is in neither leg of the pair.
    QuoteNotInBook,
    /// The order has neither of the two supported shapes.
    TooComplicated(TooComplicatedReason),
    /// The one partial-fill output is not in the other leg of the pair.
    BadPartialFillOutput,
    /// The one required output is not in the other leg of the pair.
    BadRequiredOutput,
    /// The offered volume is zero, so no price is implied.
    ZeroVolume,
}

/// The specific way an order shape exceeds what classification supports.
#[derive(Clone, Copy, Debug, PartialEq, Eq, Structural)]
pub enum TooComplicatedReason {
    /// A partial-fill change exists but differs from the pseudo-output.
    ChangeNotPseudoOutput,
    /// The order mixes partial-fill and required outputs.
    MixedOutputs,
    /// A partial-fill order must have exactly one partial-fill output.
    NotOnePartialFillOutput,
    /// An all-or-nothing order must have exactly one required output.
    NotOneRequiredOutput,
    /// Partial-fill outputs exist although there is no partial-fill change.
    StrayPartialFillOutputs,
}

/// A quote classified onto a `(base, counter)` pair, ready to display.
#[derive(Clone, Copy, Debug, PartialEq, Eq, Structural)]
pub struct QuoteInfo {
    /// Which side of the book this quote is on.
    pub quote_side: QuoteSide,
    /// The price of the base token in units of the counter token: the exact
    /// ratio of the counter-leg volume to the base-leg volume.
    pub price: Ratio,
    /// The maximum volume of base token this quote covers.
    pub volume: ScaledDecimal,
    /// Whether the order permits partial fills.
    pub is_partial_fill: bool,
    /// Timestamp of the quote.
    pub timestamp: u64,
}

/// The first entry of `infos` describing token `t`.
pub open spec fn spec_find_token_info(infos: Seq<TokenInfo>, t: TokenId) -> Option<TokenInfo>
    decreases infos.len(),
{
    if infos.len() == 0 {
        None
    } else if infos[0].token_id == t {
        Some(infos[0])
    } else {
        spec_find_token_info(infos.drop_first(), t)
    }
}

/// Find the first entry of `infos` describing token `t`.
pub fn find_token_info(infos: &[TokenInfo], t: TokenId) -> (r: Option<usize>)
    ensures
        r matches Some(j) ==> j < infos@.len()
            && spec_find_token_info(infos@, t) == Some(infos@[j as int]),
        r is None ==> spec_find_token_info(infos@, t) is None,
{
    let mut i: usize = 0;
    proof {
        assert(infos@.skip(0) =~= infos@);
    }
    while i < infos.len()
        invariant
            i <= infos@.len(),
            spec_find_token_info(infos@, t) == spec_find_token_info(infos@.skip(i as int), t),
        decreases infos@.len() - i,
    {
        let ghost rest = infos@.skip(i as int);
        proof {
            assert(rest.len() > 0);
            assert(rest[0] == infos@[i as int]);
            assert(rest.drop_first() =~= infos@.skip(i + 1));
        }
        if infos[i].token_id == t {
            return Some(i);
        }
        i = i + 1;
    }
    proof {
        assert(infos@.skip(i as int).len() == 0);
    }
    None
}

/// The single output a supported order owes in the other leg of the pair,
/// and whether the order permits partial fills.  An order has one of two
/// supported shapes: a partial-fill shape (a change equal to the
/// pseudo-output, no required outputs, exactly one partial-fill output in
/// `other_leg`) or an all-or-nothing shape (no partial-fill outputs,
/// exactly one required output in `other_leg`).
pub open spec fn spec_leg_decomposition(a: SciAmounts, other_leg: TokenId) -> Result<
    (Amount, bool),
    ClassificationError,
> {
    match a.partial_fill_change {
        Some(change) => {
            if change != a.pseudo_output {
                Err(ClassificationError::TooComplicated(
                    TooComplicatedReason::ChangeNotPseudoOutput,
                ))
            } else if a.required_outputs@.len() != 0 {
                Err(ClassificationError::TooComplicated(TooComplicatedReason::MixedOutputs))
            } else if a.partial_fill_outputs@.len() != 1 {
                Err(ClassificationError::TooComplicated(
                    TooComplicatedReason::NotOnePartialFillOutput,
                ))
            } else if a.partial_fill_outputs@[0].token_id != other_leg {
                Err(ClassificationError::BadPartialFillOutput)
            } else {
                Ok((a.partial_fill_outputs@[0], true))
            }
        }
        None => {
            if a.partial_fill_outputs@.len() != 0 {
                Err(ClassificationError::TooComplicated(
                    TooComplicatedReason::StrayPartialFillOutputs,
                ))
            } else if a.required_outputs@.len() != 1 {
                Err(ClassificationError::TooComplicated(
                    TooComplicatedReason::NotOneRequiredOutput,
                ))
            } else if a.required_outputs@[0].token_id != other_leg {
                Err(ClassificationError::BadRequiredOutput)
            } else {
                Ok((a.required_outputs@[0], false))
            }
        }
    }
}

/// What classifying a quote against a `(base, counter)` pair returns: the
/// side implied by the pseudo-output's token, the base-leg volume at the
/// base token's scale, and the price as the exact ratio of the counter-leg
/// volume to the base-leg volume; or the specific rejection.
pub open spec fn spec_classify(
    q: ValidatedQuote,
    base_token_id: TokenId,
    counter_token_id: TokenId,
    infos: Seq<TokenInfo>,
) -> Result<QuoteInfo, ClassificationError> {
    match (spec_find_token_info(infos, base_token_id), spec_find_token_info(
        infos,
        counter_token_id,
    )) {
        (Some(base_info), Some(counter_info)) => {
            let a = q.amounts;
            if a.pseudo_output.token_id == base_token_id {
                match spec_leg_decomposition(a, counter_token_id) {
                    Ok(leg) => spec_quote_info(
                        QuoteSide::Ask,
                        a.pseudo_output.value,
                        leg.0.value,
                        base_info.decimals,
                        counter_info.decimals,
                        leg.1,
                        q.timestamp,
                    ),
                    Err(e) => Err(e),
                }
            } else if a.pseudo_output.token_id == counter_token_id {
                match spec_leg_decomposition(a, base_token_id) {
                    Ok(leg) => spec_quote_info(
                        QuoteSide::Bid,
                        leg.0.value,
                        a.pseudo_output.value,
                        base_info.decimals,
                        counter_info.decimals,
                        leg.1,
                        q.timestamp,
                    ),
                    Err(e) => Err(e),
                }
            } else {
                Err(ClassificationError::QuoteNotInBook)
            }
        }
        _ => Err(ClassificationError::UnknownToken),
    }
}

/// The quote info assembled from the two leg volumes: volume is the base
/// amount at the base token's scale, and the price is the exact ratio
/// `(counter value / 10^counter decimals) / (base value / 10^base decimals)`.
pub open spec fn spec_quote_info(
    side: QuoteSide,
    base_value: u64,
    counter_value: u64,
    base_decimals: u32,
    counter_decimals: u32,
    is_partial_fill: bool,
    timestamp: u64,
) -> Result<QuoteInfo, ClassificationError> {
    if base_value == 0 {
        Err(ClassificationError::ZeroVolume)
    } else {
        Ok(QuoteInfo {
            quote_side: side,
            price: Ratio {
                num: (counter_value * pow10(base_decimals as nat)) as u128,
                den: (base_value * pow10(counter_decimals as nat)) as u128,
            },
            volume: ScaledDecimal {
                negative: false,
                mantissa: base_value as u128,
                scale: base_decimals,
            },
            is_partial_fill,
            timestamp,
        })
    }
}

/// Assemble the quote info from the two leg volumes.
fn make_quote_info(
    side: QuoteSide,
    base_value: u64,
    counter_value: u64,
    base_decimals: u32,
    counter_decimals: u32,
    is_partial_fill: bool,
    timestamp: u64,
) -> (r: Result<QuoteInfo, ClassificationError>)
    requires
        base_decimals <= crate::types::MAX_DECIMALS,
        counter_decimals <= crate::types::MAX_DECIMALS,
    ensures
        r == spec_quote_info(
            side,
            base_value,
            counter_value,
            base_decimals,
            counter_decimals,
            is_partial_fill,
            timestamp,
        ),
        r matches Ok(info) ==> info.price.wf() && info.volume.wf(),
{
    if base_value == 0 {
        return Err(ClassificationError::ZeroVolume);
    }
    proof {
        lemma_pow10_19_value();
        lemma_pow10_pos(base_decimals as nat);
        lemma_pow10_pos(counter_decimals as nat);
        crate::decimal::lemma_pow10_mono(base_decimals as nat, 19);
        crate::decimal::lemma_pow10_mono(counter_decimals as nat, 19);
        assert(counter_value * pow10(base_decimals as nat) < 0x1_0000_0000_0000_0000_0000_0000_0000_0000)
            by (nonlinear_arith)
            requires
                counter_value <= 0xffff_ffff_ffff_ffff,
                pow10(base_decimals as nat) <= 10_000_000_000_000_000_000,
        ;
        assert(base_value * pow10(counter_decimals as nat) < 0x1_0000_0000_0000_0000_0000_0000_0000_0000)
            by (nonlinear_arith)
            requires
                base_value <= 0xffff_ffff_ffff_ffff,
                pow10(counter_decimals as nat) <= 10_000_000_000_000_000_000,
        ;
        assert(base_value * pow10(counter_decimals as nat) >= 1) by (nonlinear_arith)
            requires
                base_value >= 1,
                pow10(counter_decimals as nat) >= 1,
        ;
    }
    let num: u128 = (counter_value as u128) * pow10_u128(base_decimals);
    let den: u128 = (base_value as u128) * pow10_u128(counter_decimals);
    Ok(QuoteInfo {
        quote_side: side,
        price: Ratio { num, den },
        volume: ScaledDecimal { negative: false, mantissa: base_value as u128, scale: base_decimals },
        is_partial_fill,
        timestamp,
    })
}

impl ValidatedQuote {
    /// Classify this quote against the `(base, counter)` pair: determine
    /// the side from the pseudo-output's token, check the order has one of
    /// the two supported shapes, and compute volume and price.
    pub fn get_quote_info(
        &self,
        base_token_id: TokenId,
        counter_token_id: TokenId,
        token_infos: &[TokenInfo],
    ) -> (r: Result<QuoteInfo, ClassificationError>)
        requires
            forall|i: int| 0 <= i < token_infos@.len() ==> (#[trigger] token_infos@[i]).wf(),
        ensures
            r == spec_classify(*self, base_token_id, counter_token_id, token_infos@),
            r matches Ok(info) ==> info.price.wf() && info.volume.wf(),
    {
        let base_idx = match find_token_info(token_infos, base_token_id) {
            Some(j) => j,
            None => {
                return Err(ClassificationError::UnknownToken);
            }
        };
        let counter_idx = match find_token_info(token_infos, counter_token_id) {
            Some(j) => j,
            None => {
                return Err(ClassificationError::UnknownToken);
            }
        };
        let base_decimals: u32 = token_infos[base_idx].decimals;
        let counter_decimals: u32 = token_infos[counter_idx].decimals;
        let a = &self.amounts;
        if a.pseudo_output.token_id == base_token_id {
            match self.leg_decomposition(counter_token_id) {
                Ok((out, is_partial_fill)) => make_quote_info(
                    QuoteSide::Ask,
                    a.pseudo_output.value,
                    out.value,
                    base_decimals,
                    counter_decimals,
                    is_partial_fill,
                    self.timestamp,
                ),
                Err(e) => Err(e),
            }
        } else if a.pseudo_output.token_id == counter_token_id {
            match self.leg_decomposition(base_token_id) {
                Ok((out, is_partial_fill)) => make_quote_info(
                    QuoteSide::Bid,
                    out.value,
                    a.pseudo_output.value,
                    base_decimals,
                    counter_decimals,
                    is_partial_fill,
                    self.timestamp,
                ),
                Err(e) => Err(e),
            }
        } else {
            Err(ClassificationError::QuoteNotInBook)
        }
    }

    /// The single output this order owes in `other_leg`, and whether the
    /// order permits partial fills.
    fn leg_decomposition(&self, other_leg: TokenId) -> (r: Result<
        (Amount, bool),
        ClassificationError,
    >)
        ensures
            r == spec_leg_decomposition(self.amounts, other_leg),
    {
        let a = &self.amounts;
        match &a.partial_fill_change {
            Some(change) => {
                if change.value != a.pseudo_output.value
                    || change.token_id != a.pseudo_output.token_id {
                    Err(ClassificationError::TooComplicated(
                        TooComplicatedReason::ChangeNotPseudoOutput,
                    ))
                } else if a.required_outputs.len() != 0 {
                    Err(ClassificationError::TooComplicated(TooComplicatedReason::MixedOutputs))
                } else if a.partial_fill_outputs.len() != 1 {
                    Err(ClassificationError::TooComplicated(
                        TooComplicatedReason::NotOnePartialFillOutput,
                    ))
                } else if a.partial_fill_outputs[0].token_id != other_leg {
                    Err(ClassificationError::BadPartialFillOutput)
                } else {
                    Ok((a.partial_fill_outputs[0], true))
                }
            }
            None => {
                if a.partial_fill_outputs.len() != 0 {
                    Err(ClassificationError::TooComplicated(
                        TooComplicatedReason::StrayPartialFillOutputs,
                    ))
                } else if a.required_outputs.len() != 1 {
                    Err(ClassificationError::TooComplicated(
                        TooComplicatedReason::NotOneRequiredOutput,
                    ))
                } else if a.required_outputs[0].token_id != other_leg {
                    Err(ClassificationError::BadRequiredOutput)
                } else {
                    Ok((a.required_outputs[0], false))
                }
            }
        }
    }
}

} // verus!

use wallet_engine::quote::{
    ClassificationError, QuoteSide, SciAmounts, TooComplicatedReason, ValidatedQuote,
};
use wallet_engine::types::TokenInfo;
use wallet_engine::{Amount, TokenId};

fn infos() -> Vec<TokenInfo> {
    vec![
        TokenInfo { token_id: TokenId(0), symbol: String::from("MOB"), fee: 9999, decimals: 12 },
        TokenInfo { token_id: TokenId(1), symbol: String::from("EUSD"), fee: 9999, decimals: 6 },
    ]
}

fn quote(amounts: SciAmounts) -> ValidatedQuote {
    ValidatedQuote::new(vec![1, 2, 3], amounts, 7)
}

fn ask_all_or_nothing(base_value: u64, counter_value: u64) -> ValidatedQuote {
    quote(SciAmounts {
        pseudo_output: Amount::new(base_value, TokenId(0)),
        partial_fill_change: None,
        partial_fill_outputs: vec![],
        required_outputs: vec![Amount::new(counter_value, TokenId(1))],
    })
}

#[test]
fn classify_ask_all_or_nothing() {
    // an order offering 1.0 of the 12-decimal base token for 6.0 of the
    // 6-decimal counter token: side ask, volume 1.000000, price 6.0
    let q = ask_all_or_nothing(1_000_000_000_000, 6_000_000);
    let info = q.get_quote_info(TokenId(0), TokenId(1), &infos()).unwrap();
    assert!(matches!(info.quote_side, QuoteSide::Ask));
    assert!(!info.is_partial_fill);
    assert_eq!(info.timestamp, 7);
    // volume is exactly 1.0
    assert!(!info.volume.negative);
    assert_eq!(info.volume.mantissa, 1_000_000_000_000);
    assert_eq!(info.volume.scale, 12);
    // price is exactly 6.0
    assert_eq!(info.price.num, 6 * info.price.den);
    assert!(info.price.den > 0);
}

#[test]
fn classify_ask_partial_fill() {
    let pseudo = Amount::new(2_000_000_000_000, TokenId(0));
    let q = quote(SciAmounts {
        pseudo_output: pseudo,
        partial_fill_change: Some(pseudo),
        partial_fill_outputs: vec![Amount::new(3_000_000, TokenId(1))],
        required_outputs: vec![],
    });
    let info = q.get_quote_info(TokenId(0), TokenId(1), &infos()).unwrap();
    assert!(matches!(info.quote_side, QuoteSide::Ask));
    assert!(info.is_partial_fill);
    // 2.0 base for 3.0 counter: price 1.5
    assert_eq!(2 * info.price.num, 3 * info.price.den);
    assert_eq!(info.volume.mantissa, 2_000_000_000_000);
}

#[test]
fn classify_bid_all_or_nothing() {
    // the order offers the counter token and requires the base token
    let q = quote(SciAmounts {
        pseudo_output: Amount::new(6_000_000, TokenId(1)),
        partial_fill_change: None,
        partial_fill_outputs: vec![],
        required_outputs: vec![Amount::new(2_000_000_000_000, TokenId(0))],
    });
    let info = q.get_quote_info(TokenId(0), TokenId(1), &infos()).unwrap();
    assert!(matches!(info.quote_side, QuoteSide::Bid));
    // 6.0 counter for 2.0 base: price 3.0
    assert_eq!(info.price.num, 3 * info.price.den);
    // volume is the base leg: 2.0
    assert_eq!(info.volume.mantissa, 2_000_000_000_000);
    assert_eq!(info.volume.scale, 12);
}

#[test]
fn classify_unknown_token() {
    let q = ask_all_or_nothing(1_000_000_000_000, 6_000_000);
    assert_eq!(
        q.get_quote_info(TokenId(5), TokenId(1), &infos()),
        Err(ClassificationError::UnknownToken)
    );
    assert_eq!(
        q.get_quote_info(TokenId(0), TokenId(5), &infos()),
        Err(ClassificationError::UnknownToken)
    );
}

#[test]
fn classify_quote_not_in_book() {
    let q = quote(SciAmounts {
        pseudo_output: Amount::new(5, TokenId(9)),
        partial_fill_change: None,
        partial_fill_outputs: vec![],
        required_outputs: vec![Amount::new(5, TokenId(0))],
    });
    // the pair is (0, 1): the pseudo-output in token 9 is in neither leg
    let r = q.get_quote_info(TokenId(0), TokenId(1), &infos());
    assert_eq!(r, Err(ClassificationError::QuoteNotInBook));
}

#[test]
fn classify_change_not_pseudo_output() {
    let q = quote(SciAmounts {
        pseudo_output: Amount::new(100, TokenId(0)),
        partial_fill_change: Some(Amount::new(99, TokenId(0))),
        partial_fill_outputs: vec![Amount::new(1, TokenId(1))],
        required_outputs: vec![],
    });
    assert_eq!(
        q.get_quote_info(TokenId(0), TokenId(1), &infos()),
        Err(ClassificationError::TooComplicated(TooComplicatedReason::ChangeNotPseudoOutput))
    );
}

#[test]
fn classify_mixed_outputs() {
    let pseudo = Amount::new(100, TokenId(0));
    let q = quote(SciAmounts {
        pseudo_output: pseudo,
        partial_fill_change: Some(pseudo),
        partial_fill_outputs: vec![Amount::new(1, TokenId(1))],
        required_outputs: vec![Amount::new(1, TokenId(1))],
    });
    assert_eq!(
        q.get_quote_info(TokenId(0), TokenId(1), &infos()),
        Err(ClassificationError::TooComplicated(TooComplicatedReason::MixedOutputs))
    );
}

#[test]
fn classify_not_one_partial_fill_output() {
    let pseudo = Amount::new(100, TokenId(0));
    let q = quote(SciAmounts {
        pseudo_output: pseudo,
        partial_fill_change: Some(pseudo),
        partial_fill_outputs: vec![Amount::new(1, TokenId(1)), Amount::new(2, TokenId(1))],
        required_outputs: vec![],
    });
    assert_eq!(
        q.get_quote_info(TokenId(0), TokenId(1), &infos()),
        Err(ClassificationError::TooComplicated(TooComplicatedReason::NotOnePartialFillOutput))
    );
}

#[test]
fn classify_bad_partial_fill_output() {
    let pseudo = Amount::new(100, TokenId(0));
    let q = quote(SciAmounts {
        pseudo_output: pseudo,
        partial_fill_change: Some(pseudo),
        partial_fill_outputs: vec![Amount::new(1, TokenId(0))],
        required_outputs: vec![],
    });
    assert_eq!(
        q.get_quote_info(TokenId(0), TokenId(1), &infos()),
        Err(ClassificationError::BadPartialFillOutput)
    );
}

#[test]
fn classify_stray_partial_fill_outputs() {
    let q = quote(SciAmounts {
        pseudo_output: Amount::new(100, TokenId(0)),
        partial_fill_change: None,
        partial_fill_outputs: vec![Amount::new(1, TokenId(1))],
        required_outputs: vec![Amount::new(1, TokenId(1))],
    });
    assert_eq!(
        q.get_quote_info(TokenId(0), TokenId(1), &infos()),
        Err(ClassificationError::TooComplicated(TooComplicatedReason::StrayPartialFillOutputs))
    );
}

#[test]
fn classify_not_one_required_output() {
    let q = quote(SciAmounts {
        pseudo_output: Amount::new(100, TokenId(0)),
        partial_fill_change: None,
        partial_fill_outputs: vec![],
        required_outputs: vec![Amount::new(1, TokenId(1)), Amount::new(2, TokenId(1))],
    });
    assert_eq!(
        q.get_quote_info(TokenId(0), TokenId(1), &infos()),
        Err(ClassificationError::TooComplicated(TooComplicatedReason::NotOneRequiredOutput))
    );
}

#[test]
fn classify_bad_required_output() {
    let q = quote(SciAmounts {
        pseudo_output: Amount::new(100, TokenId(0)),
        partial_fill_change: None,
        partial_fill_outputs: vec![],
        required_outputs: vec![Amount::new(1, TokenId(0))],
    });
    assert_eq!(
        q.get_quote_info(TokenId(0), TokenId(1), &infos()),
        Err(ClassificationError::BadRequiredOutput)
    );
}

#[test]
fn classify_zero_volume() {
    let q = ask_all_or_nothing(0, 6_000_000);
    assert_eq!(
        q.get_quote_info(TokenId(0), TokenId(1), &infos()),
        Err(ClassificationError::ZeroVolume)
    );
}

use wallet_engine::plan::{plan_offer, plan_send, plan_swap, OfferError, OfferSide};
use wallet_engine::quote::{SciAmounts, ValidatedQuote};
use wallet_engine::types::TokenInfo;
use wallet_engine::{Amount, ConvError, TokenId};

fn mob() -> TokenInfo {
    TokenInfo { token_id: TokenId(0), symbol: String::from("MOB"), fee: 400, decimals: 12 }
}

fn eusd() -> TokenInfo {
    TokenInfo { token_id: TokenId(1), symbol: String::from("EUSD"), fee: 2560, decimals: 6 }
}

#[test]
fn send_within_balance() {
    // 0.5 EUSD = 500_000 units; fee 2560 also fits in the balance
    assert_eq!(plan_send(&eusd(), "0.5", 1_000_000), Ok(500_000));
}

#[test]
fn send_insufficient_funds() {
    assert_eq!(
        plan_send(&eusd(), "0.5", 500_000),
        Err(String::from("insufficient funds"))
    );
}

#[test]
fn send_fee_overflow() {
    let info = TokenInfo {
        token_id: TokenId(1),
        symbol: String::from("EUSD"),
        fee: u64::MAX,
        decimals: 6,
    };
    assert_eq!(
        plan_send(&info, "1", u64::MAX),
        Err(String::from("u64 overflow with fee"))
    );
}

#[test]
fn send_rejects_bad_amount() {
    assert!(plan_send(&eusd(), "1.2.3", 1_000_000).is_err());
}

fn one_quote_book() -> Vec<ValidatedQuote> {
    // an all-or-nothing order offering 2.0 MOB for 1.0 EUSD
    vec![ValidatedQuote::new(
        vec![42],
        SciAmounts {
            pseudo_output: Amount::new(2_000_000_000_000, TokenId(0)),
            partial_fill_change: None,
            partial_fill_outputs: vec![],
            required_outputs: vec![Amount::new(1_000_000, TokenId(1))],
        },
        0,
    )]
}

#[test]
fn swap_selects_and_checks_funds() {
    let book = one_quote_book();
    let sel = plan_swap(&book, &eusd(), &mob(), "2", 2_000_000).unwrap();
    assert_eq!(sel.from_u64_value, 1_000_000);
    assert_eq!(sel.partial_fill_value, 0);
    assert_eq!(sel.sci, vec![42]);
}

#[test]
fn swap_rejects_same_token() {
    let book = one_quote_book();
    let r = plan_swap(&book, &eusd(), &eusd(), "2", u64::MAX);
    assert_eq!(r.unwrap_err(), String::from(""));
}

#[test]
fn swap_insufficient_funds() {
    // the cost is 1_000_000 and the fee 2560; a balance of exactly the
    // cost is not enough
    let book = one_quote_book();
    let r = plan_swap(&book, &eusd(), &mob(), "2", 1_000_000);
    assert_eq!(r.unwrap_err(), String::from("insufficient funds"));
}

#[test]
fn swap_insufficient_liquidity() {
    let book = one_quote_book();
    // no order supplies 3.0 MOB exactly
    let r = plan_swap(&book, &eusd(), &mob(), "3", u64::MAX);
    assert_eq!(r.unwrap_err(), String::from("insufficient liquidity"));
}

#[test]
fn offer_buy_side() {
    // price 1.25 EUSD per MOB, volume 2 MOB: pledge 2.5 EUSD, ask 2 MOB
    let r = plan_offer(&mob(), &eusd(), "1.25", "2", 0, 2_500_000, OfferSide::Buy).unwrap();
    assert_eq!(r.0, Amount::new(2_500_000, TokenId(1)));
    assert_eq!(r.1, Amount::new(2_000_000_000_000, TokenId(0)));
}

#[test]
fn offer_sell_side() {
    // same entry, selling: pledge 2 MOB, ask 2.5 EUSD
    let r = plan_offer(&mob(), &eusd(), "1.25", "2", 2_000_000_000_000, 0, OfferSide::Sell)
        .unwrap();
    assert_eq!(r.0, Amount::new(2_000_000_000_000, TokenId(0)));
    assert_eq!(r.1, Amount::new(2_500_000, TokenId(1)));
}

#[test]
fn offer_insufficient_balances() {
    let r = plan_offer(&mob(), &eusd(), "1.25", "2", 0, 2_499_999, OfferSide::Buy);
    assert!(matches!(r, Err(OfferError::InsufficientBalance(TokenId(1)))));
    let r2 = plan_offer(&mob(), &eusd(), "1.25", "2", 1_999_999_999_999, 0, OfferSide::Sell);
    assert!(matches!(r2, Err(OfferError::InsufficientBalance(TokenId(0)))));
}

#[test]
fn offer_rejects_bad_text() {
    assert!(matches!(
        plan_offer(&mob(), &eusd(), "1.25", "x", 0, 0, OfferSide::Buy),
        Err(OfferError::BadVolume(_))
    ));
    assert!(matches!(
        plan_offer(&mob(), &eusd(), "x", "2", 0, 0, OfferSide::Buy),
        Err(OfferError::BadPrice(_))
    ));
}

#[test]
fn offer_decimal_overflow() {
    // the product of the largest representable decimal and 2 has no
    // representation, whatever the balances
    let r = plan_offer(
        &mob(),
        &eusd(),
        "79228162514264337593543950335",
        "2",
        u64::MAX,
        u64::MAX,
        OfferSide::Buy,
    );
    assert!(matches!(r, Err(OfferError::DecimalOverflow)));
}

#[test]
fn offer_conversion_overflow() {
    // 2^70 MOB at 12 decimals does not fit a u64 of smallest units
    let r = plan_offer(
        &mob(),
        &eusd(),
        "1",
        "1180591620717411303424",
        u64::MAX,
        u64::MAX,
        OfferSide::Sell,
    );
    assert!(matches!(r, Err(OfferError::Conversion(ConvError::DecimalOverflow))));
}

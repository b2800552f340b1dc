use wallet_engine::quote::{SciAmounts, ValidatedQuote};
use wallet_engine::selection::QuoteSelection;
use wallet_engine::types::TokenInfo;
use wallet_engine::{Amount, TokenId};

fn from_info() -> TokenInfo {
    TokenInfo { token_id: TokenId(1), symbol: String::from("EUSD"), fee: 9999, decimals: 6 }
}

/// An all-or-nothing order offering `offer` of token 0 for `cost` of token 1.
fn aon(tag: u8, offer: u64, cost: u64) -> ValidatedQuote {
    ValidatedQuote::new(
        vec![tag],
        SciAmounts {
            pseudo_output: Amount::new(offer, TokenId(0)),
            partial_fill_change: None,
            partial_fill_outputs: vec![],
            required_outputs: vec![Amount::new(cost, TokenId(1))],
        },
        0,
    )
}

/// A partial-fill order offering `offer` of token 0 for `cost` of token 1.
fn partial(tag: u8, offer: u64, cost: u64) -> ValidatedQuote {
    let pseudo = Amount::new(offer, TokenId(0));
    ValidatedQuote::new(
        vec![tag],
        SciAmounts {
            pseudo_output: pseudo,
            partial_fill_change: Some(pseudo),
            partial_fill_outputs: vec![Amount::new(cost, TokenId(1))],
            required_outputs: vec![],
        },
        0,
    )
}

#[test]
fn selects_cheapest_all_or_nothing() {
    // two candidate orders matching the target, costing 500 and 300
    let book = vec![aon(1, 1_000, 500), aon(2, 1_000, 300)];
    let sel = QuoteSelection::new(&book, TokenId(1), &from_info(), Amount::new(1_000, TokenId(0)))
        .unwrap();
    assert_eq!(sel.from_u64_value, 300);
    assert_eq!(sel.partial_fill_value, 0);
    assert_eq!(sel.sci, vec![2]);
    // the cost is also reported as a decimal at the paying token's scale
    assert_eq!(sel.from_value_decimal.mantissa, 300);
    assert_eq!(sel.from_value_decimal.scale, 6);
    assert!(!sel.from_value_decimal.negative);
}

#[test]
fn first_minimum_wins_ties() {
    let book = vec![aon(1, 1_000, 300), aon(2, 1_000, 300)];
    let sel = QuoteSelection::new(&book, TokenId(1), &from_info(), Amount::new(1_000, TokenId(0)))
        .unwrap();
    assert_eq!(sel.sci, vec![1]);
}

#[test]
fn partial_fill_cost_is_proportional() {
    // an order offering 1,000,000 units asking 2,000,000; a target of
    // 400,000 costs 800,000 (the ratio), not the full 2,000,000
    let book = vec![partial(1, 1_000_000, 2_000_000)];
    let sel = QuoteSelection::new(
        &book,
        TokenId(1),
        &from_info(),
        Amount::new(400_000, TokenId(0)),
    )
    .unwrap();
    assert_eq!(sel.partial_fill_value, 400_000);
    assert_eq!(sel.from_u64_value, 800_000);
}

#[test]
fn partial_fill_cost_rounds_up() {
    // 3 offered for 10: filling 1 costs ceil(10 / 3) == 4
    let book = vec![partial(1, 3, 10)];
    let sel = QuoteSelection::new(&book, TokenId(1), &from_info(), Amount::new(1, TokenId(0)))
        .unwrap();
    assert_eq!(sel.partial_fill_value, 1);
    assert_eq!(sel.from_u64_value, 4);
}

#[test]
fn partial_fill_too_small_is_skipped() {
    // the order cannot supply the target even at full fill
    let book = vec![partial(1, 300_000, 600_000)];
    let r = QuoteSelection::new(&book, TokenId(1), &from_info(), Amount::new(400_000, TokenId(0)));
    assert_eq!(r.unwrap_err(), String::from("insufficient liquidity"));
}

#[test]
fn empty_book_is_insufficient_liquidity() {
    let book: Vec<ValidatedQuote> = vec![];
    let r = QuoteSelection::new(&book, TokenId(1), &from_info(), Amount::new(1_000, TokenId(0)));
    assert_eq!(r.unwrap_err(), String::from("insufficient liquidity"));
}

#[test]
fn mismatched_book_is_insufficient_liquidity() {
    // the orders offer token 7, the target is token 0
    let book = vec![
        ValidatedQuote::new(
            vec![1],
            SciAmounts {
                pseudo_output: Amount::new(1_000, TokenId(7)),
                partial_fill_change: None,
                partial_fill_outputs: vec![],
                required_outputs: vec![Amount::new(10, TokenId(1))],
            },
            0,
        ),
        // and an exact-token order whose value does not match the target
        aon(2, 999, 10),
    ];
    let r = QuoteSelection::new(&book, TokenId(1), &from_info(), Amount::new(1_000, TokenId(0)));
    assert_eq!(r.unwrap_err(), String::from("insufficient liquidity"));
}

#[test]
fn candidate_without_paying_token_is_skipped() {
    // the order wants token 5, not the paying token 1
    let book = vec![ValidatedQuote::new(
        vec![1],
        SciAmounts {
            pseudo_output: Amount::new(1_000, TokenId(0)),
            partial_fill_change: None,
            partial_fill_outputs: vec![],
            required_outputs: vec![Amount::new(10, TokenId(5))],
        },
        0,
    )];
    let r = QuoteSelection::new(&book, TokenId(1), &from_info(), Amount::new(1_000, TokenId(0)));
    assert_eq!(r.unwrap_err(), String::from("insufficient liquidity"));
}

#[test]
fn cheapest_across_partial_and_exact() {
    // an exact order costing 900 beats a partial fill costing 1000
    let book = vec![partial(1, 2_000, 2_000), aon(2, 1_000, 900)];
    let sel = QuoteSelection::new(&book, TokenId(1), &from_info(), Amount::new(1_000, TokenId(0)))
        .unwrap();
    assert_eq!(sel.from_u64_value, 900);
    assert_eq!(sel.sci, vec![2]);
    assert_eq!(sel.partial_fill_value, 0);
}

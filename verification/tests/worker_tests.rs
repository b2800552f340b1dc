use wallet_engine::quote::{SciAmounts, ValidatedQuote};
use wallet_engine::worker::{deqs_poll_pairs, FeeTable, WorkerInitError, WorkerState};
use wallet_engine::{Amount, TokenId};

#[test]
fn initial_state() {
    let s = WorkerState::new();
    assert_eq!(s.get_sync_progress(), (0, 1));
    assert!(s.get_balances().is_empty());
    assert!(s.top_error().is_none());
    assert!(s.active_pair().is_none());
    assert!(s.get_quote_book(TokenId(0), TokenId(1)).is_empty());
}

#[test]
fn sync_progress_updates() {
    let mut s = WorkerState::new();
    s.set_total_blocks(100);
    s.set_synced_blocks(40);
    assert_eq!(s.get_sync_progress(), (40, 100));
}

#[test]
fn balances_update_per_token() {
    let mut s = WorkerState::new();
    s.set_balance(TokenId(0), 500);
    s.set_balance(TokenId(1), 700);
    s.set_balance(TokenId(0), 600);
    assert_eq!(s.get_balance(TokenId(0)), 600);
    assert_eq!(s.get_balance(TokenId(1)), 700);
    assert_eq!(s.get_balance(TokenId(2)), 0);
    assert_eq!(s.get_balances().len(), 2);
}

#[test]
fn error_queue_keeps_first_three() {
    // pushing 5 errors while capacity is 3 retains exactly the first 3,
    // poppable in arrival order; the 4th and 5th are discarded
    let mut s = WorkerState::new();
    for msg in ["one", "two", "three", "four", "five"] {
        s.push_error(String::from(msg));
    }
    assert_eq!(s.top_error(), Some(String::from("one")));
    s.pop_error();
    assert_eq!(s.top_error(), Some(String::from("two")));
    s.pop_error();
    assert_eq!(s.top_error(), Some(String::from("three")));
    s.pop_error();
    assert_eq!(s.top_error(), None);
    s.pop_error();
    assert_eq!(s.top_error(), None);
}

#[test]
fn error_queue_accepts_after_pop() {
    let mut s = WorkerState::new();
    for msg in ["one", "two", "three"] {
        s.push_error(String::from(msg));
    }
    s.push_error(String::from("dropped"));
    s.pop_error();
    s.push_error(String::from("four"));
    assert_eq!(s.top_error(), Some(String::from("two")));
    s.pop_error();
    s.pop_error();
    assert_eq!(s.top_error(), Some(String::from("four")));
}

#[test]
fn active_pair_set_and_cleared() {
    let mut s = WorkerState::new();
    s.get_quotes_for_token_ids(TokenId(0), TokenId(1));
    assert_eq!(s.active_pair(), Some((TokenId(0), TokenId(1))));
    s.stop_quotes();
    assert_eq!(s.active_pair(), None);
}

#[test]
fn quote_books_replaced_wholesale() {
    let mut s = WorkerState::new();
    let q = |tag: u8| {
        ValidatedQuote::new(
            vec![tag],
            SciAmounts {
                pseudo_output: Amount::new(10, TokenId(0)),
                partial_fill_change: None,
                partial_fill_outputs: vec![],
                required_outputs: vec![Amount::new(1, TokenId(1))],
            },
            0,
        )
    };
    s.set_quote_book(TokenId(0), TokenId(1), vec![q(1), q(2)]);
    s.set_quote_book(TokenId(1), TokenId(0), vec![q(3)]);
    assert_eq!(s.get_quote_book(TokenId(0), TokenId(1)).len(), 2);
    assert_eq!(s.get_quote_book(TokenId(1), TokenId(0)).len(), 1);
    // replacement, not merging
    s.set_quote_book(TokenId(0), TokenId(1), vec![q(9)]);
    let book = s.get_quote_book(TokenId(0), TokenId(1));
    assert_eq!(book.len(), 1);
    assert_eq!(book[0].sci, vec![9]);
    // an unknown pair reads as empty
    assert!(s.get_quote_book(TokenId(5), TokenId(6)).is_empty());
}

#[test]
fn poll_pairs_both_orientations() {
    assert!(deqs_poll_pairs(None).is_empty());
    assert!(deqs_poll_pairs(Some((TokenId(2), TokenId(2)))).is_empty());
    let pairs = deqs_poll_pairs(Some((TokenId(0), TokenId(1))));
    assert_eq!(pairs, vec![(TokenId(0), TokenId(1)), (TokenId(1), TokenId(0))]);
}

#[test]
fn token_info_filtered_by_fees() {
    let mut fees = FeeTable::new();
    fees.insert(TokenId(0), 400);
    fees.insert(TokenId(1), 2560);
    let infos = fees.get_token_info();
    assert_eq!(infos.len(), 2);
    assert_eq!(infos[0].token_id, TokenId(0));
    assert_eq!(infos[0].symbol, "MOB");
    assert_eq!(infos[0].decimals, 12);
    assert_eq!(infos[0].fee, 400);
    assert_eq!(infos[1].token_id, TokenId(1));
    assert_eq!(infos[1].symbol, "EUSD");
    assert_eq!(infos[1].decimals, 6);
    assert_eq!(infos[1].fee, 2560);
}

#[test]
fn token_info_includes_third_token() {
    let mut fees = FeeTable::new();
    fees.insert(TokenId(8192), 1024);
    let infos = fees.get_token_info();
    assert_eq!(infos.len(), 1);
    assert_eq!(infos[0].token_id, TokenId(8192));
    assert_eq!(infos[0].symbol, "FauxUSD");
    assert_eq!(infos[0].decimals, 6);
    assert_eq!(infos[0].fee, 1024);
}

#[test]
fn min_fill_value_is_ten_times_fee() {
    let mut fees = FeeTable::new();
    fees.insert(TokenId(0), 400);
    assert_eq!(fees.min_fill_value(TokenId(0)), Some(4000));
    // a token without a fee defaults to zero
    assert_eq!(fees.min_fill_value(TokenId(1)), Some(0));
    // an overflowing product is reported rather than wrapped
    fees.insert(TokenId(2), u64::MAX / 2);
    assert_eq!(fees.min_fill_value(TokenId(2)), None);
}

#[test]
fn init_error_message() {
    let e = WorkerInitError::Mobilecoind;
    assert_eq!(e.message(), "Failed to initialize with mobilecoind");
}

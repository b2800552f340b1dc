use wallet_engine::swap::{
    acquire_next, acquire_start, find_matching_output, fulfill_next, fulfill_start,
    interpret_quote_submission, AcquireAction, AcquireEvent, AcquireFailure, AcquireState,
    FulfillAction, FulfillEvent, FulfillFailure, FulfillState, QuoteSubmitStatus,
};
use wallet_engine::{Amount, TokenId};

/// Drive the acquisition machine, answering every action from the given
/// closures, and count the actions performed.
fn drive_acquire(
    mut on_action: impl FnMut(AcquireAction) -> AcquireEvent,
) -> (AcquireState, u64, u64, u64) {
    let (mut state, first) = acquire_start();
    let mut pending = Some(first);
    let mut lists: u64 = 0;
    let mut selfpays: u64 = 0;
    let mut polls: u64 = 0;
    let mut guard: u32 = 0;
    while let Some(step) = pending {
        guard += 1;
        assert!(guard < 1000, "machine did not terminate");
        match step.action {
            AcquireAction::ListUnspent => lists += 1,
            AcquireAction::SubmitSelfPay => selfpays += 1,
            AcquireAction::PollTxStatus => polls += 1,
        }
        let event = on_action(step.action);
        let (next, next_step) = acquire_next(state, event);
        state = next;
        pending = next_step;
    }
    (state, lists, selfpays, polls)
}

#[test]
fn acquisition_exhausts_budget_with_no_match() {
    // with zero matching outputs and every call succeeding, the machine
    // cycles search -> self-pay -> wait-confirm -> search until the budget
    // of 5 is consumed: 5 searches, 4 self-payments, 4 status polls
    let (state, lists, selfpays, polls) = drive_acquire(|action| match action {
        AcquireAction::ListUnspent => AcquireEvent::ListOk { found: false },
        AcquireAction::SubmitSelfPay => AcquireEvent::SelfPayOk,
        AcquireAction::PollTxStatus => AcquireEvent::StatusOk { known: true },
    });
    assert_eq!(state, AcquireState::Failed(AcquireFailure::NoMatchingOutput));
    assert_eq!(lists, 5);
    assert_eq!(selfpays, 4);
    assert_eq!(polls, 4);
    assert_eq!(
        AcquireFailure::NoMatchingOutput.message(),
        "failed to produce input of required value"
    );
}

#[test]
fn acquisition_finds_output_after_self_payment() {
    let mut list_calls: u32 = 0;
    let (state, lists, selfpays, polls) = drive_acquire(|action| match action {
        AcquireAction::ListUnspent => {
            list_calls += 1;
            AcquireEvent::ListOk { found: list_calls >= 2 }
        }
        AcquireAction::SubmitSelfPay => AcquireEvent::SelfPayOk,
        AcquireAction::PollTxStatus => AcquireEvent::StatusOk { known: true },
    });
    assert_eq!(state, AcquireState::Found);
    assert_eq!(lists, 2);
    assert_eq!(selfpays, 1);
    assert_eq!(polls, 1);
}

#[test]
fn acquisition_list_failures_exhaust_budget() {
    let (state, lists, selfpays, _) = drive_acquire(|action| match action {
        AcquireAction::ListUnspent => AcquireEvent::ListFailed,
        _ => AcquireEvent::SelfPayOk,
    });
    assert_eq!(state, AcquireState::Failed(AcquireFailure::ListUnspent));
    assert_eq!(lists, 5);
    assert_eq!(selfpays, 0);
}

#[test]
fn acquisition_self_pay_failures_count_against_budget() {
    let (state, lists, selfpays, polls) = drive_acquire(|action| match action {
        AcquireAction::ListUnspent => AcquireEvent::ListOk { found: false },
        AcquireAction::SubmitSelfPay => AcquireEvent::SelfPayFailed,
        AcquireAction::PollTxStatus => AcquireEvent::StatusFailed,
    });
    // budget 5: each not-found consumes one retry and each self-pay
    // failure another, so the third search exhausts the budget
    assert_eq!(state, AcquireState::Failed(AcquireFailure::NoMatchingOutput));
    assert_eq!(lists, 3);
    assert_eq!(selfpays, 2);
    assert_eq!(polls, 0);
}

#[test]
fn acquisition_fails_at_self_payment_when_budget_runs_out_there() {
    let mut selfpay_calls: u32 = 0;
    let (state, lists, selfpays, _) = drive_acquire(|action| match action {
        AcquireAction::ListUnspent => AcquireEvent::ListOk { found: false },
        AcquireAction::SubmitSelfPay => {
            selfpay_calls += 1;
            if selfpay_calls == 1 {
                AcquireEvent::SelfPayOk
            } else {
                AcquireEvent::SelfPayFailed
            }
        }
        AcquireAction::PollTxStatus => AcquireEvent::StatusOk { known: true },
    });
    // searches at budget 5, 4, 2; the second and third self-payments fail,
    // and the third failure lands with the last retry
    assert_eq!(state, AcquireState::Failed(AcquireFailure::SelfPay));
    assert_eq!(lists, 3);
    assert_eq!(selfpays, 3);
}

#[test]
fn acquisition_waits_until_status_known() {
    let mut status_calls: u32 = 0;
    let mut list_calls: u32 = 0;
    let (state, lists, _, polls) = drive_acquire(|action| match action {
        AcquireAction::ListUnspent => {
            list_calls += 1;
            AcquireEvent::ListOk { found: list_calls >= 2 }
        }
        AcquireAction::SubmitSelfPay => AcquireEvent::SelfPayOk,
        AcquireAction::PollTxStatus => {
            status_calls += 1;
            if status_calls == 1 {
                AcquireEvent::StatusFailed
            } else {
                AcquireEvent::StatusOk { known: status_calls >= 4 }
            }
        }
    });
    // one failed poll, two unknown polls, one known poll
    assert_eq!(state, AcquireState::Found);
    assert_eq!(polls, 4);
    assert_eq!(lists, 2);
}

#[test]
fn fulfillment_happy_path() {
    let (mut state, first) = fulfill_start();
    assert_eq!(first.action, FulfillAction::ListUnspent);
    let mut actions = vec![first.action];
    let mut pending = Some(first);
    while let Some(step) = pending {
        let event = match step.action {
            FulfillAction::ListUnspent => FulfillEvent::InputsOk,
            FulfillAction::GenerateTx => FulfillEvent::BuildOk,
            FulfillAction::SubmitTx => FulfillEvent::SubmitOk,
        };
        let (next, next_step) = fulfill_next(state, event);
        state = next;
        pending = next_step;
        if let Some(s) = pending {
            actions.push(s.action);
        }
    }
    assert_eq!(state, FulfillState::Done);
    assert_eq!(
        actions,
        vec![FulfillAction::ListUnspent, FulfillAction::GenerateTx, FulfillAction::SubmitTx]
    );
}

#[test]
fn fulfillment_input_listing_retries_three_times() {
    let (mut state, first) = fulfill_start();
    let mut list_calls: u32 = 0;
    let mut pending = Some(first);
    while let Some(step) = pending {
        assert_eq!(step.action, FulfillAction::ListUnspent);
        list_calls += 1;
        let (next, next_step) = fulfill_next(state, FulfillEvent::InputsFailed);
        state = next;
        pending = next_step;
    }
    assert_eq!(state, FulfillState::Failed(FulfillFailure::ListUnspent));
    assert_eq!(list_calls, 3);
}

#[test]
fn fulfillment_aborts_on_build_failure() {
    let (state0, _) = fulfill_start();
    let (state1, step1) = fulfill_next(state0, FulfillEvent::InputsOk);
    assert_eq!(state1, FulfillState::Build);
    assert_eq!(step1.unwrap().action, FulfillAction::GenerateTx);
    let (state2, step2) = fulfill_next(state1, FulfillEvent::BuildFailed);
    assert_eq!(state2, FulfillState::Failed(FulfillFailure::Build));
    assert!(step2.is_none());
}

#[test]
fn fulfillment_aborts_on_submit_failure() {
    let (state0, _) = fulfill_start();
    let (state1, _) = fulfill_next(state0, FulfillEvent::InputsOk);
    let (state2, _) = fulfill_next(state1, FulfillEvent::BuildOk);
    assert_eq!(state2, FulfillState::Submit);
    let (state3, step3) = fulfill_next(state2, FulfillEvent::SubmitFailed);
    assert_eq!(state3, FulfillState::Failed(FulfillFailure::Submit));
    assert!(step3.is_none());
}

#[test]
fn matching_output_search() {
    let outputs = vec![
        Amount::new(100, TokenId(0)),
        Amount::new(250, TokenId(1)),
        Amount::new(250, TokenId(0)),
        Amount::new(250, TokenId(0)),
    ];
    // the value must match in the right token
    assert_eq!(find_matching_output(&outputs, Amount::new(250, TokenId(0))), Some(2));
    assert_eq!(find_matching_output(&outputs, Amount::new(250, TokenId(1))), Some(1));
    assert_eq!(find_matching_output(&outputs, Amount::new(300, TokenId(0))), None);
    assert_eq!(find_matching_output(&vec![], Amount::new(1, TokenId(0))), None);
}

#[test]
fn submission_interpretation() {
    let no_msgs: Vec<String> = vec![];
    assert_eq!(
        interpret_quote_submission(Some(QuoteSubmitStatus::Created), &no_msgs),
        Ok(())
    );
    let msgs = vec![String::from("quote already exists"), String::from("other")];
    assert_eq!(
        interpret_quote_submission(Some(QuoteSubmitStatus::Rejected), &msgs),
        Err(String::from("quote already exists"))
    );
    assert_eq!(
        interpret_quote_submission(None, &no_msgs),
        Err(String::from("no error message..."))
    );
    assert_eq!(
        interpret_quote_submission(Some(QuoteSubmitStatus::Rejected), &no_msgs),
        Err(String::from("no error message..."))
    );
}

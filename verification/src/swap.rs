//! The retry state machines of the swap orchestrator, and the
//! interpretation of the quoting service's submission response.
//!
//! Both machines are explicit step functions from a state and an observed
//! event to the next state and the next action to perform; the caller that
//! owns the remote connections drives them: it performs each action, waits
//! the step's delay, and hands the outcome back as the next event.  A
//! terminal state carries no further action.

use vstd::prelude::*;
use crate::types::Amount;

verus! {

/// The retry budget of the exact-value input acquisition.
pub const ACQUIRE_RETRIES: u32 = 5;

/// The retry budget of the fulfillment input listing.
pub const FULFILL_RETRIES: u32 = 3;

/// Delay before a retried call, in milliseconds.
pub const RETRY_DELAY_MS: u64 = 200;

/// Delay between two transaction-status polls, in milliseconds.
pub const STATUS_POLL_DELAY_MS: u64 = 50;

/// Extra settling delay after a self-payment lands, letting the balance
/// view catch up before searching again, in milliseconds.
pub const SETTLE_DELAY_MS: u64 = 1000;

/// Where the acquisition of an exact-value input stands.
#[derive(Clone, Copy, Debug, PartialEq, Eq, Structural)]
pub enum AcquireState {
    /// Listing unspent outputs, looking for an exact-value match.
    Search { retries_left: u32 },
    /// Submitting a self-payment of the exact value.
    SelfPay { retries_left: u32 },
    /// Polling the self-payment's status until it leaves "unknown".
    WaitConfirm { retries_left: u32 },
    /// An exact-value output was found.
    Found,
    /// The retry budget is exhausted.
    Failed(AcquireFailure),
}

/// Which step exhausted the acquisition's retry budget.
#[derive(Clone, Copy, Debug, PartialEq, Eq, Structural)]
pub enum AcquireFailure {
    /// Listing unspent outputs kept failing.
    ListUnspent,
    /// Submitting the self-payment kept failing.
    SelfPay,
    /// No output of the required value could be produced.
    NoMatchingOutput,
}

impl AcquireFailure {
    /// The user-visible description of the terminal failure.
    pub fn message(&self) -> (s: String)
        ensures
            *self is ListUnspent ==> s@ == "failed getting unspent tx out list"@,
            *self is SelfPay ==> s@ == "failed submitting self-payment"@,
            *self is NoMatchingOutput ==> s@ == "failed to produce input of required value"@,
    {
        match self {
            AcquireFailure::ListUnspent => "failed getting unspent tx out list".to_owned(),
            AcquireFailure::SelfPay => "failed submitting self-payment".to_owned(),
            AcquireFailure::NoMatchingOutput => "failed to produce input of required value"
                .to_owned(),
        }
    }
}

/// What the driver observed after performing the pending action.
#[derive(Clone, Copy, Debug, PartialEq, Eq, Structural)]
pub enum AcquireEvent {
    /// The unspent-output listing succeeded; `found` says whether an output
    /// of the exact required value is in it.
    ListOk { found: bool },
    /// The unspent-output listing failed.
    ListFailed,
    /// The self-payment was submitted.
    SelfPayOk,
    /// Submitting the self-payment failed.
    SelfPayFailed,
    /// The status poll answered; `known` says whether the status has left
    /// "unknown".
    StatusOk { known: bool },
    /// The status poll failed.
    StatusFailed,
}

/// What the driver performs next.
#[derive(Clone, Copy, Debug, PartialEq, Eq, Structural)]
pub enum AcquireAction {
    /// List the unspent outputs of the paying token.
    ListUnspent,
    /// Submit a self-payment of the exact required value.
    SubmitSelfPay,
    /// Poll the self-payment's transaction status.
    PollTxStatus,
}

/// An action together with the delay to wait before performing it.
#[derive(Clone, Copy, Debug, PartialEq, Eq, Structural)]
pub struct AcquireStep {
    pub delay_ms: u64,
    pub action: AcquireAction,
}

/// The action a non-terminal state is waiting on.
pub open spec fn acquire_pending(s: AcquireState) -> AcquireAction {
    match s {
        AcquireState::Search { .. } => AcquireAction::ListUnspent,
        AcquireState::SelfPay { .. } => AcquireAction::SubmitSelfPay,
        AcquireState::WaitConfirm { .. } => AcquireAction::PollTxStatus,
        _ => AcquireAction::ListUnspent,
    }
}

/// The acquisition's transition relation.  An event that does not answer
/// the pending action leaves the state unchanged and re-issues that action;
/// terminal states absorb every event.
pub open spec fn spec_acquire_next(s: AcquireState, e: AcquireEvent) -> (
    AcquireState,
    Option<AcquireStep>,
) {
    match s {
        AcquireState::Search { retries_left } => match e {
            AcquireEvent::ListOk { found } => {
                if found {
                    (AcquireState::Found, None)
                } else if retries_left <= 1 {
                    (AcquireState::Failed(AcquireFailure::NoMatchingOutput), None)
                } else {
                    (
                        AcquireState::SelfPay { retries_left: (retries_left - 1) as u32 },
                        Some(AcquireStep { delay_ms: 0, action: AcquireAction::SubmitSelfPay }),
                    )
                }
            }
            AcquireEvent::ListFailed => {
                if retries_left <= 1 {
                    (AcquireState::Failed(AcquireFailure::ListUnspent), None)
                } else {
                    (
                        AcquireState::Search { retries_left: (retries_left - 1) as u32 },
                        Some(
                            AcquireStep {
                                delay_ms: RETRY_DELAY_MS,
                                action: AcquireAction::ListUnspent,
                            },
                        ),
                    )
                }
            }
            _ => (s, Some(AcquireStep { delay_ms: 0, action: acquire_pending(s) })),
        },
        AcquireState::SelfPay { retries_left } => match e {
            AcquireEvent::SelfPayOk => (
                AcquireState::WaitConfirm { retries_left },
                Some(AcquireStep { delay_ms: 0, action: AcquireAction::PollTxStatus }),
            ),
            AcquireEvent::SelfPayFailed => {
                if retries_left <= 1 {
                    (AcquireState::Failed(AcquireFailure::SelfPay), None)
                } else {
                    (
                        AcquireState::Search { retries_left: (retries_left - 1) as u32 },
                        Some(
                            AcquireStep {
                                delay_ms: RETRY_DELAY_MS,
                                action: AcquireAction::ListUnspent,
                            },
                        ),
                    )
                }
            }
            _ => (s, Some(AcquireStep { delay_ms: 0, action: acquire_pending(s) })),
        },
        AcquireState::WaitConfirm { retries_left } => match e {
            AcquireEvent::StatusFailed => (
                s,
                Some(
                    AcquireStep { delay_ms: RETRY_DELAY_MS, action: AcquireAction::PollTxStatus },
                ),
            ),
            AcquireEvent::StatusOk { known } => {
                if known {
                    (
                        AcquireState::Search { retries_left },
                        Some(
                            AcquireStep {
                                delay_ms: (STATUS_POLL_DELAY_MS + SETTLE_DELAY_MS) as u64,
                                action: AcquireAction::ListUnspent,
                            },
                        ),
                    )
                } else {
                    (
                        s,
                        Some(
                            AcquireStep {
                                delay_ms: STATUS_POLL_DELAY_MS,
                                action: AcquireAction::PollTxStatus,
                            },
                        ),
                    )
                }
            }
            _ => (s, Some(AcquireStep { delay_ms: 0, action: acquire_pending(s) })),
        },
        AcquireState::Found => (s, None),
        AcquireState::Failed(_) => (s, None),
    }
}

/// The initial state of an acquisition, and the first action to perform.
pub fn acquire_start() -> (r: (AcquireState, AcquireStep))
    ensures
        r.0 == (AcquireState::Search { retries_left: ACQUIRE_RETRIES }),
        r.1 == (AcquireStep { delay_ms: 0, action: AcquireAction::ListUnspent }),
{
    (
        AcquireState::Search { retries_left: ACQUIRE_RETRIES },
        AcquireStep { delay_ms: 0, action: AcquireAction::ListUnspent },
    )
}

/// Step the acquisition machine on one observed event.
pub fn acquire_next(s: AcquireState, e: AcquireEvent) -> (r: (AcquireState, Option<AcquireStep>))
    ensures
        r == spec_acquire_next(s, e),
{
    match s {
        AcquireState::Search { retries_left } => match e {
            AcquireEvent::ListOk { found } => {
                if found {
                    (AcquireState::Found, None)
                } else if retries_left <= 1 {
                    (AcquireState::Failed(AcquireFailure::NoMatchingOutput), None)
                } else {
                    (
                        AcquireState::SelfPay { retries_left: retries_left - 1 },
                        Some(AcquireStep { delay_ms: 0, action: AcquireAction::SubmitSelfPay }),
                    )
                }
            }
            AcquireEvent::ListFailed => {
                if retries_left <= 1 {
                    (AcquireState::Failed(AcquireFailure::ListUnspent), None)
                } else {
                    (
                        AcquireState::Search { retries_left: retries_left - 1 },
                        Some(
                            AcquireStep {
                                delay_ms: RETRY_DELAY_MS,
                                action: AcquireAction::ListUnspent,
                            },
                        ),
                    )
                }
            }
            _ => (s, Some(AcquireStep { delay_ms: 0, action: AcquireAction::ListUnspent })),
        },
        AcquireState::SelfPay { retries_left } => match e {
            AcquireEvent::SelfPayOk => (
                AcquireState::WaitConfirm { retries_left },
                Some(AcquireStep { delay_ms: 0, action: AcquireAction::PollTxStatus }),
            ),
            AcquireEvent::SelfPayFailed => {
                if retries_left <= 1 {
                    (AcquireState::Failed(AcquireFailure::SelfPay), None)
                } else {
                    (
                        AcquireState::Search { retries_left: retries_left - 1 },
                        Some(
                            AcquireStep {
                                delay_ms: RETRY_DELAY_MS,
                                action: AcquireAction::ListUnspent,
                            },
                        ),
                    )
                }
            }
            _ => (s, Some(AcquireStep { delay_ms: 0, action: AcquireAction::SubmitSelfPay })),
        },
        AcquireState::WaitConfirm { retries_left } => match e {
            AcquireEvent::StatusFailed => (
                s,
                Some(
                    AcquireStep { delay_ms: RETRY_DELAY_MS, action: AcquireAction::PollTxStatus },
                ),
            ),
            AcquireEvent::StatusOk { known } => {
                if known {
                    (
                        AcquireState::Search { retries_left },
                        Some(
                            AcquireStep {
                                delay_ms: STATUS_POLL_DELAY_MS + SETTLE_DELAY_MS,
                                action: AcquireAction::ListUnspent,
                            },
                        ),
                    )
                } else {
                    (
                        s,
                        Some(
                            AcquireStep {
                                delay_ms: STATUS_POLL_DELAY_MS,
                                action: AcquireAction::PollTxStatus,
                            },
                        ),
                    )
                }
            }
            _ => (s, Some(AcquireStep { delay_ms: 0, action: AcquireAction::PollTxStatus })),
        },
        AcquireState::Found => (s, None),
        AcquireState::Failed(_) => (s, None),
    }
}

/// Run the acquisition machine over a sequence of events, collecting the
/// steps it issues.
pub open spec fn acquire_run(s: AcquireState, events: Seq<AcquireEvent>) -> (
    AcquireState,
    Seq<AcquireStep>,
)
    decreases events.len(),
{
    if events.len() == 0 {
        (s, Seq::empty())
    } else {
        let first = spec_acquire_next(s, events[0]);
        let rest = acquire_run(first.0, events.drop_first());
        (
            rest.0,
            (match first.1 {
                Some(st) => seq![st],
                None => Seq::empty(),
            }) + rest.1,
        )
    }
}

/// How many steps of `steps` perform the action `a`.
pub open spec fn count_action(steps: Seq<AcquireStep>, a: AcquireAction) -> int
    decreases steps.len(),
{
    if steps.len() == 0 {
        0
    } else {
        (if steps[0].action == a {
            1int
        } else {
            0int
        }) + count_action(steps.drop_first(), a)
    }
}

/// The events of a run in which every listing finds no matching output and
/// every self-payment and status poll succeeds at once.
pub open spec fn no_match_events(b: u32) -> Seq<AcquireEvent>
    decreases b,
{
    if b <= 1 {
        seq![AcquireEvent::ListOk { found: false }]
    } else {
        seq![
            AcquireEvent::ListOk { found: false },
            AcquireEvent::SelfPayOk,
            AcquireEvent::StatusOk { known: true },
        ] + no_match_events((b - 1) as u32)
    }
}

/// Counting distributes over concatenation.
proof fn lemma_count_action_concat(s1: Seq<AcquireStep>, s2: Seq<AcquireStep>, a: AcquireAction)
    ensures
        count_action(s1 + s2, a) == count_action(s1, a) + count_action(s2, a),
    decreases s1.len(),
{
    if s1.len() == 0 {
        assert(s1 + s2 =~= s2);
    } else {
        assert((s1 + s2)[0] == s1[0]);
        assert((s1 + s2).drop_first() =~= s1.drop_first() + s2);
        lemma_count_action_concat(s1.drop_first(), s2, a);
    }
}

/// With no matching output ever found and the remote calls succeeding, the
/// machine cycles search, self-payment and confirmation until the retry
/// budget `b` is consumed, and terminates in failure.  Counting the initial
/// search that [`acquire_start`] issues, a budget of `b` performs exactly
/// `b` searches, `b - 1` self-payments and `b - 1` status polls.
pub proof fn lemma_acquire_exhausts_budget(b: u32)
    requires
        b >= 1,
    ensures
        ({
            let r = acquire_run(AcquireState::Search { retries_left: b }, no_match_events(b));
            &&& r.0 == AcquireState::Failed(AcquireFailure::NoMatchingOutput)
            &&& count_action(r.1, AcquireAction::ListUnspent) == b - 1
            &&& count_action(r.1, AcquireAction::SubmitSelfPay) == b - 1
            &&& count_action(r.1, AcquireAction::PollTxStatus) == b - 1
        }),
    decreases b,
{
    reveal_with_fuel(acquire_run, 5);
    reveal_with_fuel(count_action, 5);
    let s0 = AcquireState::Search { retries_left: b };
    let events = no_match_events(b);
    if b == 1 {
        assert(events =~= seq![AcquireEvent::ListOk { found: false }]);
        let e0 = events[0];
        assert(spec_acquire_next(s0, e0)
            == (AcquireState::Failed(AcquireFailure::NoMatchingOutput), None::<AcquireStep>));
        assert(events.drop_first().len() == 0);
        let r = acquire_run(s0, events);
        assert(r.1 =~= Seq::<AcquireStep>::empty());
    } else {
        lemma_acquire_exhausts_budget((b - 1) as u32);
        let head = seq![
            AcquireEvent::ListOk { found: false },
            AcquireEvent::SelfPayOk,
            AcquireEvent::StatusOk { known: true },
        ];
        let tail = no_match_events((b - 1) as u32);
        assert(events == head + tail);
        // walk the first cycle by hand
        let e0 = events[0];
        let s1 = AcquireState::SelfPay { retries_left: (b - 1) as u32 };
        let st0 = AcquireStep { delay_ms: 0, action: AcquireAction::SubmitSelfPay };
        assert(spec_acquire_next(s0, e0) == (s1, Some(st0)));
        let ev1 = events.drop_first();
        assert(ev1 =~= seq![AcquireEvent::SelfPayOk, AcquireEvent::StatusOk { known: true }]
            + tail);
        let e1 = ev1[0];
        assert(e1 == AcquireEvent::SelfPayOk);
        let s2 = AcquireState::WaitConfirm { retries_left: (b - 1) as u32 };
        let st1 = AcquireStep { delay_ms: 0, action: AcquireAction::PollTxStatus };
        assert(spec_acquire_next(s1, e1) == (s2, Some(st1)));
        let ev2 = ev1.drop_first();
        assert(ev2 =~= seq![AcquireEvent::StatusOk { known: true }] + tail);
        let e2 = ev2[0];
        assert(e2 == AcquireEvent::StatusOk { known: true });
        let s3 = AcquireState::Search { retries_left: (b - 1) as u32 };
        let st2 = AcquireStep {
            delay_ms: (STATUS_POLL_DELAY_MS + SETTLE_DELAY_MS) as u64,
            action: AcquireAction::ListUnspent,
        };
        assert(spec_acquire_next(s2, e2) == (s3, Some(st2)));
        let ev3 = ev2.drop_first();
        assert(ev3 =~= tail);
        let rec = acquire_run(s3, tail);
        let r = acquire_run(s0, events);
        // unfold the run along the first cycle
        assert(events.len() > 0 && ev1.len() > 0 && ev2.len() > 0);
        assert(acquire_run(s2, ev2) == (acquire_run(s3, ev3).0, seq![st2] + acquire_run(
            s3,
            ev3,
        ).1));
        assert(acquire_run(s3, ev3) == rec);
        assert(acquire_run(s1, ev1) == (acquire_run(s2, ev2).0, seq![st1] + acquire_run(
            s2,
            ev2,
        ).1));
        assert(r == (acquire_run(s1, ev1).0, seq![st0] + acquire_run(s1, ev1).1));
        assert(r.0 == rec.0);
        assert(r.1 =~= seq![st0, st1, st2] + rec.1) by {
            assert(seq![st0] + (seq![st1] + (seq![st2] + rec.1)) =~= seq![st0, st1, st2] + rec.1);
        }
        lemma_count_action_concat(seq![st0, st1, st2], rec.1, AcquireAction::ListUnspent);
        lemma_count_action_concat(seq![st0, st1, st2], rec.1, AcquireAction::SubmitSelfPay);
        lemma_count_action_concat(seq![st0, st1, st2], rec.1, AcquireAction::PollTxStatus);
        assert(count_action(seq![st0, st1, st2], AcquireAction::ListUnspent) == 1) by {
            assert(seq![st0, st1, st2].drop_first() =~= seq![st1, st2]);
            assert(seq![st1, st2].drop_first() =~= seq![st2]);
            assert(seq![st2].drop_first() =~= Seq::<AcquireStep>::empty());
        }
        assert(count_action(seq![st0, st1, st2], AcquireAction::SubmitSelfPay) == 1) by {
            assert(seq![st0, st1, st2].drop_first() =~= seq![st1, st2]);
            assert(seq![st1, st2].drop_first() =~= seq![st2]);
            assert(seq![st2].drop_first() =~= Seq::<AcquireStep>::empty());
        }
        assert(count_action(seq![st0, st1, st2], AcquireAction::PollTxStatus) == 1) by {
            assert(seq![st0, st1, st2].drop_first() =~= seq![st1, st2]);
            assert(seq![st1, st2].drop_first() =~= seq![st2]);
            assert(seq![st2].drop_first() =~= Seq::<AcquireStep>::empty());
        }
    }
}

/// Where the fulfillment of a selected order stands.
#[derive(Clone, Copy, Debug, PartialEq, Eq, Structural)]
pub enum FulfillState {
    /// Listing the unspent outputs that will pay for the order.
    GetInputs { retries_left: u32 },
    /// Asking the wallet daemon to build the fulfillment transaction.
    Build,
    /// Submitting the built transaction.
    Submit,
    /// The transaction was submitted.
    Done,
    /// A step failed terminally.
    Failed(FulfillFailure),
}

/// Which step of the fulfillment failed.
#[derive(Clone, Copy, Debug, PartialEq, Eq, Structural)]
pub enum FulfillFailure {
    /// Listing unspent outputs kept failing.
    ListUnspent,
    /// Building the transaction failed.
    Build,
    /// Submitting the transaction failed.
    Submit,
}

/// What the driver observed after performing the pending fulfillment action.
#[derive(Clone, Copy, Debug, PartialEq, Eq, Structural)]
pub enum FulfillEvent {
    InputsOk,
    InputsFailed,
    BuildOk,
    BuildFailed,
    SubmitOk,
    SubmitFailed,
}

/// What the driver performs next.
#[derive(Clone, Copy, Debug, PartialEq, Eq, Structural)]
pub enum FulfillAction {
    /// List the unspent outputs of the paying token.
    ListUnspent,
    /// Ask the wallet daemon to build the fulfillment transaction.
    GenerateTx,
    /// Submit the built transaction.
    SubmitTx,
}

/// An action together with the delay to wait before performing it.
#[derive(Clone, Copy, Debug, PartialEq, Eq, Structural)]
pub struct FulfillStep {
    pub delay_ms: u64,
    pub action: FulfillAction,
}

/// The fulfillment's transition relation: the input listing is retried up
/// to its budget with a fixed backoff; building and submitting are each
/// attempted once, and any failure aborts at that step.
pub open spec fn spec_fulfill_next(s: FulfillState, e: FulfillEvent) -> (
    FulfillState,
    Option<FulfillStep>,
) {
    match s {
        FulfillState::GetInputs { retries_left } => match e {
            FulfillEvent::InputsOk => (
                FulfillState::Build,
                Some(FulfillStep { delay_ms: 0, action: FulfillAction::GenerateTx }),
            ),
            FulfillEvent::InputsFailed => {
                if retries_left <= 1 {
                    (FulfillState::Failed(FulfillFailure::ListUnspent), None)
                } else {
                    (
                        FulfillState::GetInputs { retries_left: (retries_left - 1) as u32 },
                        Some(
                            FulfillStep {
                                delay_ms: RETRY_DELAY_MS,
                                action: FulfillAction::ListUnspent,
                            },
                        ),
                    )
                }
            }
            _ => (s, Some(FulfillStep { delay_ms: 0, action: FulfillAction::ListUnspent })),
        },
        FulfillState::Build => match e {
            FulfillEvent::BuildOk => (
                FulfillState::Submit,
                Some(FulfillStep { delay_ms: 0, action: FulfillAction::SubmitTx }),
            ),
            FulfillEvent::BuildFailed => (FulfillState::Failed(FulfillFailure::Build), None),
            _ => (s, Some(FulfillStep { delay_ms: 0, action: FulfillAction::GenerateTx })),
        },
        FulfillState::Submit => match e {
            FulfillEvent::SubmitOk => (FulfillState::Done, None),
            FulfillEvent::SubmitFailed => (FulfillState::Failed(FulfillFailure::Submit), None),
            _ => (s, Some(FulfillStep { delay_ms: 0, action: FulfillAction::SubmitTx })),
        },
        FulfillState::Done => (s, None),
        FulfillState::Failed(_) => (s, None),
    }
}

/// The initial state of a fulfillment, and the first action to perform.
pub fn fulfill_start() -> (r: (FulfillState, FulfillStep))
    ensures
        r.0 == (FulfillState::GetInputs { retries_left: FULFILL_RETRIES }),
        r.1 == (FulfillStep { delay_ms: 0, action: FulfillAction::ListUnspent }),
{
    (
        FulfillState::GetInputs { retries_left: FULFILL_RETRIES },
        FulfillStep { delay_ms: 0, action: FulfillAction::ListUnspent },
    )
}

/// Step the fulfillment machine on one observed event.
pub fn fulfill_next(s: FulfillState, e: FulfillEvent) -> (r: (FulfillState, Option<FulfillStep>))
    ensures
        r == spec_fulfill_next(s, e),
{
    match s {
        FulfillState::GetInputs { retries_left } => match e {
            FulfillEvent::InputsOk => (
                FulfillState::Build,
                Some(FulfillStep { delay_ms: 0, action: FulfillAction::GenerateTx }),
            ),
            FulfillEvent::InputsFailed => {
                if retries_left <= 1 {
                    (FulfillState::Failed(FulfillFailure::ListUnspent), None)
                } else {
                    (
                        FulfillState::GetInputs { retries_left: retries_left - 1 },
                        Some(
                            FulfillStep {
                                delay_ms: RETRY_DELAY_MS,
                                action: FulfillAction::ListUnspent,
                            },
                        ),
                    )
                }
            }
            _ => (s, Some(FulfillStep { delay_ms: 0, action: FulfillAction::ListUnspent })),
        },
        FulfillState::Build => match e {
            FulfillEvent::BuildOk => (
                FulfillState::Submit,
                Some(FulfillStep { delay_ms: 0, action: FulfillAction::SubmitTx }),
            ),
            FulfillEvent::BuildFailed => (FulfillState::Failed(FulfillFailure::Build), None),
            _ => (s, Some(FulfillStep { delay_ms: 0, action: FulfillAction::GenerateTx })),
        },
        FulfillState::Submit => match e {
            FulfillEvent::SubmitOk => (FulfillState::Done, None),
            FulfillEvent::SubmitFailed => (FulfillState::Failed(FulfillFailure::Submit), None),
            _ => (s, Some(FulfillStep { delay_ms: 0, action: FulfillAction::SubmitTx })),
        },
        FulfillState::Done => (s, None),
        FulfillState::Failed(_) => (s, None),
    }
}

/// The first output of the list matching the wanted amount exactly, in both
/// token and value.
pub fn find_matching_output(outputs: &Vec<Amount>, want: Amount) -> (r: Option<usize>)
    ensures
        r matches Some(j) ==> j < outputs@.len() && outputs@[j as int] == want && (forall|m: int|
            0 <= m < j ==> outputs@[m] != want),
        r is None ==> forall|m: int| 0 <= m < outputs@.len() ==> outputs@[m] != want,
{
    let mut i: usize = 0;
    while i < outputs.len()
        invariant
            i <= outputs@.len(),
            forall|m: int| 0 <= m < i ==> outputs@[m] != want,
        decreases outputs@.len() - i,
    {
        if outputs[i].token_id == want.token_id && outputs[i].value == want.value {
            return Some(i);
        }
        i = i + 1;
    }
    None
}

/// The quoting service's verdict on one submitted order, as the consumer
/// reads it.
#[derive(Clone, Copy, Debug, PartialEq, Eq, Structural)]
pub enum QuoteSubmitStatus {
    /// The order was created.
    Created,
    /// Any other status code.
    Rejected,
}

/// Interpret the quoting service's response to a submitted order: the first
/// status code must say the order was created; any other outcome surfaces
/// the first attached error message, or a placeholder when none came back.
pub fn interpret_quote_submission(
    first_status: Option<QuoteSubmitStatus>,
    error_messages: &Vec<String>,
) -> (r: Result<(), String>)
    ensures
        r is Ok <==> first_status == Some(QuoteSubmitStatus::Created),
        r matches Err(m) ==> (if error_messages@.len() > 0 {
            m@ == error_messages@[0]@
        } else {
            m@ == "no error message..."@
        }),
{
    match first_status {
        Some(QuoteSubmitStatus::Created) => Ok(()),
        _ => {
            if error_messages.len() > 0 {
                Err(error_messages[0].clone())
            } else {
                Err("no error message...".to_owned())
            }
        }
    }
}

} // verus!

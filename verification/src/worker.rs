//! The shared state a background synchronization worker maintains, the
//! bounded error queue it reports through, and the per-token fee table it
//! is configured with.
//!
//! The worker thread itself, its remote-procedure calls and the lock around
//! this state live outside the library; every mutation of the state is one
//! of the methods here, so each lock holder works with verified
//! transitions.  Each method touches one field group and leaves the rest
//! unchanged, which is what permits a reader between two lock acquisitions
//! to see a torn — but never partially written — snapshot.

use vstd::prelude::*;
use std::collections::VecDeque;
use crate::alist::{
    alist_lookup, alist_unique, lemma_alist_lookup_absent, lemma_alist_lookup_entry,
    lemma_alist_lookup_none, lemma_alist_lookup_push, lemma_alist_lookup_update,
};
use crate::quote::ValidatedQuote;
use crate::types::{TokenId, TokenInfo};

verus! {

/// How many errors the queue retains; errors pushed while it is full are
/// dropped (the oldest entries are kept).
pub const ERROR_QUEUE_CAPACITY: usize = 3;

/// An error that prevented the worker from initializing.  Errors after
/// initialization are queued in [`WorkerState`] for display instead.
#[derive(Clone, Copy, Debug, PartialEq, Eq, Structural)]
pub enum WorkerInitError {
    /// Failed to initialize with the wallet daemon.
    Mobilecoind,
}

impl WorkerInitError {
    /// A short description of the failure.
    pub fn message(&self) -> (s: String)
        ensures
            s@ == "Failed to initialize with mobilecoind"@,
    {
        "Failed to initialize with mobilecoind".to_owned()
    }
}

/// Find the entry of a token-keyed list holding `k`.
fn tok_map_find(v: &Vec<(TokenId, u64)>, k: TokenId) -> (r: Option<usize>)
    requires
        alist_unique(v@),
    ensures
        r matches Some(j) ==> j < v@.len() && v@[j as int].0 == k
            && alist_lookup(v@, k) == Some(v@[j as int].1),
        r is None ==> alist_lookup(v@, k) is None,
{
    let mut i: usize = 0;
    while i < v.len()
        invariant
            alist_unique(v@),
            i <= v@.len(),
            forall|m: int| 0 <= m < i ==> (#[trigger] v@[m]).0 != k,
        decreases v@.len() - i,
    {
        if v[i].0 == k {
            proof {
                lemma_alist_lookup_entry(v@, i as int);
            }
            return Some(i);
        }
        i = i + 1;
    }
    proof {
        lemma_alist_lookup_absent(v@, k);
    }
    None
}

/// Store `val` under `k` in a token-keyed list, replacing any previous value.
fn tok_map_set(v: &mut Vec<(TokenId, u64)>, k: TokenId, val: u64)
    requires
        alist_unique(old(v)@),
    ensures
        alist_unique(final(v)@),
        forall|kk: TokenId| #[trigger] alist_lookup(final(v)@, kk) == (if kk == k {
            Some(val)
        } else {
            alist_lookup(old(v)@, kk)
        }),
{
    match tok_map_find(v, k) {
        Some(j) => {
            let ghost pre = v@;
            v.set(j, (k, val));
            proof {
                assert forall|kk: TokenId| #[trigger] alist_lookup(v@, kk) == (if kk == k {
                    Some(val)
                } else {
                    alist_lookup(pre, kk)
                }) by {
                    lemma_alist_lookup_update(pre, j as int, (k, val), kk);
                }
                assert(alist_unique(v@)) by {
                    assert(forall|m: int| 0 <= m < v@.len() ==> (#[trigger] v@[m]).0 == pre[m].0);
                }
            }
        }
        None => {
            let ghost pre = v@;
            v.push((k, val));
            proof {
                assert forall|kk: TokenId| #[trigger] alist_lookup(v@, kk) == (if kk == k {
                    Some(val)
                } else {
                    alist_lookup(pre, kk)
                }) by {
                    lemma_alist_lookup_push(pre, (k, val), kk);
                }
                assert(alist_unique(v@)) by {
                    lemma_alist_lookup_none(pre, k);
                    assert(forall|m: int| 0 <= m < pre.len() ==> #[trigger] v@[m] == pre[m]);
                    assert(v@[pre.len() as int] == (k, val));
                }
            }
        }
    }
}

/// Find the entry of the quote-book list holding the pair `key`.
fn book_find(v: &Vec<((TokenId, TokenId), Vec<ValidatedQuote>)>, key: (TokenId, TokenId)) -> (r:
    Option<usize>)
    requires
        alist_unique(v@),
    ensures
        r matches Some(j) ==> j < v@.len() && v@[j as int].0 == key
            && alist_lookup(v@, key) == Some(v@[j as int].1),
        r is None ==> alist_lookup(v@, key) is None,
{
    let mut i: usize = 0;
    while i < v.len()
        invariant
            alist_unique(v@),
            i <= v@.len(),
            forall|m: int| 0 <= m < i ==> (#[trigger] v@[m]).0 != key,
        decreases v@.len() - i,
    {
        if v[i].0.0 == key.0 && v[i].0.1 == key.1 {
            proof {
                assert(v@[i as int].0 == key);
                lemma_alist_lookup_entry(v@, i as int);
            }
            return Some(i);
        }
        i = i + 1;
    }
    proof {
        lemma_alist_lookup_absent(v@, key);
    }
    None
}

/// Copy a token-keyed list of values.
fn clone_tok_map(v: &Vec<(TokenId, u64)>) -> (r: Vec<(TokenId, u64)>)
    ensures
        r@ == v@,
{
    let mut r: Vec<(TokenId, u64)> = Vec::new();
    let mut i: usize = 0;
    while i < v.len()
        invariant
            i <= v.len(),
            r@ == v@.subrange(0, i as int),
        decreases v.len() - i,
    {
        r.push(v[i]);
        proof {
            assert(r@ =~= v@.subrange(0, i + 1));
        }
        i = i + 1;
    }
    proof {
        assert(r@ =~= v@);
    }
    r
}

/// Copy a list of quotes.
fn clone_quotes(v: &Vec<ValidatedQuote>) -> (r: Vec<ValidatedQuote>)
    ensures
        r@.len() == v@.len(),
        forall|i: int| 0 <= i < v@.len() ==> (#[trigger] r@[i]).equiv(v@[i]),
        forall|i: int| 0 <= i < v@.len() ==> ((#[trigger] v@[i]).wf() ==> r@[i].wf()),
{
    let mut r: Vec<ValidatedQuote> = Vec::new();
    let mut i: usize = 0;
    while i < v.len()
        invariant
            i <= v@.len(),
            r@.len() == i,
            forall|m: int| 0 <= m < i ==> (#[trigger] r@[m]).equiv(v@[m]),
            forall|m: int| 0 <= m < i ==> ((#[trigger] v@[m]).wf() ==> r@[m].wf()),
        decreases v@.len() - i,
    {
        r.push(v[i].clone());
        i = i + 1;
    }
    r
}

/// The bounded push the error queue performs: a message is appended only
/// while the queue is below capacity, and dropped otherwise.
pub open spec fn bounded_push(q: Seq<String>, msg: String) -> Seq<String> {
    if q.len() < ERROR_QUEUE_CAPACITY {
        q.push(msg)
    } else {
        q
    }
}

/// The queue after pushing each message of `msgs` in order.
pub open spec fn bounded_push_all(q: Seq<String>, msgs: Seq<String>) -> Seq<String>
    decreases msgs.len(),
{
    if msgs.len() == 0 {
        q
    } else {
        bounded_push_all(bounded_push(q, msgs[0]), msgs.drop_first())
    }
}

/// The error queue keeps the oldest messages: pushing any sequence of
/// messages onto a queue below capacity retains the queue followed by the
/// first messages that fit, in arrival order; the rest are dropped.
pub proof fn lemma_bounded_push_all(q: Seq<String>, msgs: Seq<String>)
    requires
        q.len() <= ERROR_QUEUE_CAPACITY,
    ensures
        bounded_push_all(q, msgs) == q + msgs.take(
            if ERROR_QUEUE_CAPACITY - q.len() <= msgs.len() {
                ERROR_QUEUE_CAPACITY - q.len()
            } else {
                msgs.len() as int
            },
        ),
    decreases msgs.len(),
{
    let room = ERROR_QUEUE_CAPACITY - q.len();
    let k = if room <= msgs.len() {
        room
    } else {
        msgs.len() as int
    };
    if msgs.len() == 0 {
        assert(bounded_push_all(q, msgs) =~= q + msgs.take(k));
    } else if q.len() < ERROR_QUEUE_CAPACITY {
        lemma_bounded_push_all(q.push(msgs[0]), msgs.drop_first());
        assert(bounded_push_all(q, msgs) =~= q + msgs.take(k));
    } else {
        lemma_bounded_push_all(q, msgs.drop_first());
        assert(bounded_push_all(q, msgs) =~= q + msgs.take(k));
    }
}

/// Pushing any sequence of messages onto an empty queue retains exactly the
/// first ones up to capacity, in arrival order.
pub proof fn lemma_error_queue_keeps_oldest(msgs: Seq<String>)
    ensures
        bounded_push_all(Seq::<String>::empty(), msgs) == msgs.take(
            if msgs.len() <= ERROR_QUEUE_CAPACITY {
                msgs.len() as int
            } else {
                ERROR_QUEUE_CAPACITY as int
            },
        ),
{
    lemma_bounded_push_all(Seq::<String>::empty(), msgs);
    assert(Seq::<String>::empty() + msgs.take(
        if msgs.len() <= ERROR_QUEUE_CAPACITY {
            msgs.len() as int
        } else {
            ERROR_QUEUE_CAPACITY as int
        },
    ) =~= msgs.take(
        if msgs.len() <= ERROR_QUEUE_CAPACITY {
            msgs.len() as int
        } else {
            ERROR_QUEUE_CAPACITY as int
        },
    ));
}

/// The worker's shared snapshot of remote-service reality.  The worker
/// thread produces most fields; the consumer sets the actively tracked pair
/// and drains the error queue.
pub struct WorkerState {
    /// Blocks synchronized for the monitored account.
    pub synced_blocks: u64,
    /// Total blocks in the ledger.
    pub total_blocks: u64,
    /// The current balance of the monitored account, per token.
    pub balance: Vec<(TokenId, u64)>,
    /// The pair the consumer is looking at, if any; the worker polls the
    /// quoting service only while one is set.
    pub get_quotes_token_ids: Option<(TokenId, TokenId)>,
    /// The known quote book of each polled pair.
    pub quote_books: Vec<((TokenId, TokenId), Vec<ValidatedQuote>)>,
    /// The queued user-visible errors, oldest first, at most
    /// [`ERROR_QUEUE_CAPACITY`].
    pub errors: VecDeque<String>,
}

impl WorkerState {
    /// Well-formed: the maps are unique-keyed, the queue is within its
    /// capacity, and every stored quote is well-formed.
    pub open spec fn wf(&self) -> bool {
        &&& alist_unique(self.balance@)
        &&& alist_unique(self.quote_books@)
        &&& self.errors@.len() <= ERROR_QUEUE_CAPACITY
        &&& forall|i: int| 0 <= i < self.quote_books@.len() ==> (forall|j: int|
            0 <= j < (#[trigger] self.quote_books@[i]).1@.len()
                ==> (#[trigger] self.quote_books@[i].1@[j]).wf())
    }

    /// The initial state: one total block, nothing else known yet.
    pub fn new() -> (s: Self)
        ensures
            s.wf(),
            s.synced_blocks == 0,
            s.total_blocks == 1,
            s.balance@.len() == 0,
            s.get_quotes_token_ids is None,
            s.quote_books@.len() == 0,
            s.errors@.len() == 0,
    {
        WorkerState {
            synced_blocks: 0,
            total_blocks: 1,
            balance: Vec::new(),
            get_quotes_token_ids: None,
            quote_books: Vec::new(),
            errors: VecDeque::new(),
        }
    }

    /// The synchronized and total block counts, as one snapshot.
    pub fn get_sync_progress(&self) -> (r: (u64, u64))
        ensures
            r == (self.synced_blocks, self.total_blocks),
    {
        (self.synced_blocks, self.total_blocks)
    }

    /// Record the ledger's total block count.
    pub fn set_total_blocks(&mut self, total_blocks: u64)
        ensures
            *final(self) == (WorkerState { total_blocks, ..*old(self) }),
    {
        self.total_blocks = total_blocks;
    }

    /// Record the monitor's synchronized block count.
    pub fn set_synced_blocks(&mut self, synced_blocks: u64)
        ensures
            *final(self) == (WorkerState { synced_blocks, ..*old(self) }),
    {
        self.synced_blocks = synced_blocks;
    }

    /// Record the balance polled for one token.
    pub fn set_balance(&mut self, token_id: TokenId, value: u64)
        requires
            old(self).wf(),
        ensures
            final(self).wf(),
            forall|t: TokenId| #[trigger] alist_lookup(final(self).balance@, t) == (
            if t == token_id {
                Some(value)
            } else {
                alist_lookup(old(self).balance@, t)
            }),
            final(self).synced_blocks == old(self).synced_blocks,
            final(self).total_blocks == old(self).total_blocks,
            final(self).get_quotes_token_ids == old(self).get_quotes_token_ids,
            final(self).quote_books == old(self).quote_books,
            final(self).errors == old(self).errors,
    {
        tok_map_set(&mut self.balance, token_id, value);
    }

    /// The balances of the monitored account, per token.
    pub fn get_balances(&self) -> (r: Vec<(TokenId, u64)>)
        ensures
            r@ == self.balance@,
    {
        clone_tok_map(&self.balance)
    }

    /// The balance of one token, or zero when none was polled yet.
    pub fn get_balance(&self, token_id: TokenId) -> (r: u64)
        requires
            self.wf(),
        ensures
            r as int == (match alist_lookup(self.balance@, token_id) {
                Some(v) => v as int,
                None => 0,
            }),
    {
        match tok_map_find(&self.balance, token_id) {
            Some(j) => self.balance[j].1,
            None => 0,
        }
    }

    /// Ask the worker to poll quotes for the given pair.
    pub fn get_quotes_for_token_ids(&mut self, tok1: TokenId, tok2: TokenId)
        ensures
            *final(self) == (WorkerState {
                get_quotes_token_ids: Some((tok1, tok2)),
                ..*old(self)
            }),
    {
        self.get_quotes_token_ids = Some((tok1, tok2));
    }

    /// Tell the worker it can stop polling quotes.
    pub fn stop_quotes(&mut self)
        ensures
            *final(self) == (WorkerState { get_quotes_token_ids: None, ..*old(self) }),
    {
        self.get_quotes_token_ids = None;
    }

    /// The pair the consumer is looking at, if any.
    pub fn active_pair(&self) -> (r: Option<(TokenId, TokenId)>)
        ensures
            r == self.get_quotes_token_ids,
    {
        self.get_quotes_token_ids
    }

    /// Queue a user-visible error.  A message arriving while the queue is
    /// full is dropped: the oldest errors are retained.
    pub fn push_error(&mut self, msg: String)
        requires
            old(self).wf(),
        ensures
            final(self).wf(),
            final(self).errors@ == bounded_push(old(self).errors@, msg),
            final(self).synced_blocks == old(self).synced_blocks,
            final(self).total_blocks == old(self).total_blocks,
            final(self).balance == old(self).balance,
            final(self).get_quotes_token_ids == old(self).get_quotes_token_ids,
            final(self).quote_books == old(self).quote_books,
    {
        if self.errors.len() < ERROR_QUEUE_CAPACITY {
            self.errors.push_back(msg);
        }
    }

    /// The oldest queued error, if any.
    pub fn top_error(&self) -> (r: Option<String>)
        ensures
            r == (if self.errors@.len() > 0 {
                Some(self.errors@[0])
            } else {
                None::<String>
            }),
    {
        if self.errors.len() > 0 {
            Some(self.errors[0].clone())
        } else {
            None
        }
    }

    /// Drop the oldest queued error, if any.
    pub fn pop_error(&mut self)
        requires
            old(self).wf(),
        ensures
            final(self).wf(),
            final(self).errors@ == (if old(self).errors@.len() > 0 {
                old(self).errors@.drop_first()
            } else {
                old(self).errors@
            }),
            final(self).synced_blocks == old(self).synced_blocks,
            final(self).total_blocks == old(self).total_blocks,
            final(self).balance == old(self).balance,
            final(self).get_quotes_token_ids == old(self).get_quotes_token_ids,
            final(self).quote_books == old(self).quote_books,
    {
        let popped = self.errors.pop_front();
        proof {
            if old(self).errors@.len() > 0 {
                assert(self.errors@ =~= old(self).errors@.drop_first());
            }
        }
    }

    /// Replace the stored quote book of the pair `(tok1, tok2)` wholesale.
    pub fn set_quote_book(&mut self, tok1: TokenId, tok2: TokenId, quotes: Vec<ValidatedQuote>)
        requires
            old(self).wf(),
            forall|i: int| 0 <= i < quotes@.len() ==> (#[trigger] quotes@[i]).wf(),
        ensures
            final(self).wf(),
            forall|p: (TokenId, TokenId)| #[trigger] alist_lookup(final(self).quote_books@, p) == (
            if p == (tok1, tok2) {
                Some(quotes)
            } else {
                alist_lookup(old(self).quote_books@, p)
            }),
            final(self).synced_blocks == old(self).synced_blocks,
            final(self).total_blocks == old(self).total_blocks,
            final(self).balance == old(self).balance,
            final(self).get_quotes_token_ids == old(self).get_quotes_token_ids,
            final(self).errors == old(self).errors,
    {
        let key = (tok1, tok2);
        let found: Option<usize> = book_find(&self.quote_books, key);
        let ghost pre = self.quote_books@;
        match found {
            Some(j) => {
                self.quote_books.set(j, (key, quotes));
                proof {
                    assert forall|p: (TokenId, TokenId)| #[trigger] alist_lookup(
                        self.quote_books@, p) == (if p == key {
                        Some(quotes)
                    } else {
                        alist_lookup(pre, p)
                    }) by {
                        lemma_alist_lookup_update(pre, j as int, (key, quotes), p);
                    }
                    assert(alist_unique(self.quote_books@)) by {
                        assert(forall|m: int| 0 <= m < self.quote_books@.len()
                            ==> (#[trigger] self.quote_books@[m]).0 == pre[m].0);
                    }
                }
            }
            None => {
                self.quote_books.push((key, quotes));
                proof {
                    assert forall|p: (TokenId, TokenId)| #[trigger] alist_lookup(
                        self.quote_books@, p) == (if p == key {
                        Some(quotes)
                    } else {
                        alist_lookup(pre, p)
                    }) by {
                        lemma_alist_lookup_push(pre, (key, quotes), p);
                    }
                    assert(alist_unique(self.quote_books@)) by {
                        lemma_alist_lookup_none(pre, key);
                        assert(forall|m: int| 0 <= m < pre.len()
                            ==> #[trigger] self.quote_books@[m] == pre[m]);
                        assert(self.quote_books@[pre.len() as int] == (key, quotes));
                    }
                }
            }
        }
    }

    /// The stored quote book of the pair `(tok1, tok2)`, or an empty book.
    pub fn get_quote_book(&self, tok1: TokenId, tok2: TokenId) -> (r: Vec<ValidatedQuote>)
        requires
            self.wf(),
        ensures
            forall|i: int| 0 <= i < r@.len() ==> (#[trigger] r@[i]).wf(),
            match alist_lookup(self.quote_books@, (tok1, tok2)) {
                Some(book) => r@.len() == book@.len() && (forall|i: int|
                    0 <= i < book@.len() ==> (#[trigger] r@[i]).equiv(book@[i])),
                None => r@.len() == 0,
            },
    {
        let key = (tok1, tok2);
        match book_find(&self.quote_books, key) {
            Some(j) => clone_quotes(&self.quote_books[j].1),
            None => Vec::new(),
        }
    }
}

/// The pair orientations one polling cycle fetches quotes for: both
/// orientations of the actively tracked pair, or none while no pair is set
/// or its two tokens coincide.
pub fn deqs_poll_pairs(active: Option<(TokenId, TokenId)>) -> (r: Vec<(TokenId, TokenId)>)
    ensures
        match active {
            Some(p) => (if p.0 == p.1 {
                r@.len() == 0
            } else {
                r@ == seq![(p.0, p.1), (p.1, p.0)]
            }),
            None => r@.len() == 0,
        },
{
    match active {
        Some((tok1, tok2)) => {
            if tok1.0 == tok2.0 {
                Vec::new()
            } else {
                let mut r: Vec<(TokenId, TokenId)> = Vec::new();
                r.push((tok1, tok2));
                r.push((tok2, tok1));
                proof {
                    assert(r@ =~= seq![(tok1, tok2), (tok2, tok1)]);
                }
                r
            }
        }
        None => Vec::new(),
    }
}

/// The minimum network fee of each token, fetched once at worker start.
pub struct FeeTable {
    pub entries: Vec<(TokenId, u64)>,
}

impl FeeTable {
    /// Well-formed: one entry per token.
    pub open spec fn wf(&self) -> bool {
        alist_unique(self.entries@)
    }

    /// An empty table.
    pub fn new() -> (r: Self)
        ensures
            r.wf(),
            r.entries@.len() == 0,
    {
        FeeTable { entries: Vec::new() }
    }

    /// Record the minimum fee of one token, replacing any previous entry.
    pub fn insert(&mut self, token_id: TokenId, fee: u64)
        requires
            old(self).wf(),
        ensures
            final(self).wf(),
            forall|t: TokenId| #[trigger] alist_lookup(final(self).entries@, t) == (
            if t == token_id {
                Some(fee)
            } else {
                alist_lookup(old(self).entries@, t)
            }),
    {
        tok_map_set(&mut self.entries, token_id, fee);
    }

    /// The minimum fee of one token, if the network defines the token.
    pub fn get(&self, token_id: TokenId) -> (r: Option<u64>)
        requires
            self.wf(),
        ensures
            r == alist_lookup(self.entries@, token_id),
    {
        match tok_map_find(&self.entries, token_id) {
            Some(j) => Some(self.entries[j].1),
            None => None,
        }
    }

    /// The smallest partial-fill value a new order will accept: ten times
    /// the token's minimum fee (zero when the token has none), or nothing
    /// when that product does not fit in 64 bits.
    pub fn min_fill_value(&self, token_id: TokenId) -> (r: Option<u64>)
        requires
            self.wf(),
        ensures
            ({
                let fee = (match alist_lookup(self.entries@, token_id) {
                    Some(f) => f as int,
                    None => 0,
                });
                if 10 * fee <= u64::MAX {
                    r == Some((10 * fee) as u64)
                } else {
                    r is None
                }
            }),
    {
        let fee: u64 = match self.get(token_id) {
            Some(f) => f,
            None => 0,
        };
        if fee <= u64::MAX / 10 {
            Some(fee * 10)
        } else {
            None
        }
    }
}

/// The display metadata record of each token the network defines, derived
/// from the fee table: the token id, symbol and decimal count of each
/// catalogued token that has a minimum fee, with that fee.
pub open spec fn spec_token_infos(fees: Seq<(TokenId, u64)>) -> Seq<(u64, Seq<char>, u32, u64)> {
    (match alist_lookup(fees, TokenId(0)) {
        Some(f) => seq![(0u64, "MOB"@, 12u32, f)],
        None => Seq::empty(),
    }) + (match alist_lookup(fees, TokenId(1)) {
        Some(f) => seq![(1u64, "EUSD"@, 6u32, f)],
        None => Seq::empty(),
    }) + (match alist_lookup(fees, TokenId(8192)) {
        Some(f) => seq![(8192u64, "FauxUSD"@, 6u32, f)],
        None => Seq::empty(),
    })
}

/// The records `r` carry exactly the fields listed in `s`, in order.
pub open spec fn infos_match(r: Seq<TokenInfo>, s: Seq<(u64, Seq<char>, u32, u64)>) -> bool {
    &&& r.len() == s.len()
    &&& forall|i: int| 0 <= i < r.len() ==> ((#[trigger] r[i]).token_id == TokenId(s[i].0)
        && r[i].symbol@ == s[i].1 && r[i].decimals == s[i].2 && r[i].fee == s[i].3)
}

impl FeeTable {
    /// The display metadata of the tokens this network defines: the
    /// catalogued symbol and decimal count of each token with a known
    /// minimum fee, carrying that fee.
    pub fn get_token_info(&self) -> (r: Vec<TokenInfo>)
        requires
            self.wf(),
        ensures
            infos_match(r@, spec_token_infos(self.entries@)),
            forall|i: int| 0 <= i < r@.len() ==> (#[trigger] r@[i]).wf(),
    {
        let mut r: Vec<TokenInfo> = Vec::new();
        match self.get(TokenId(0)) {
            Some(fee) => {
                r.push(TokenInfo {
                    token_id: TokenId(0),
                    symbol: "MOB".to_owned(),
                    fee,
                    decimals: 12,
                });
            }
            None => {}
        }
        match self.get(TokenId(1)) {
            Some(fee) => {
                r.push(TokenInfo {
                    token_id: TokenId(1),
                    symbol: "EUSD".to_owned(),
                    fee,
                    decimals: 6,
                });
            }
            None => {}
        }
        match self.get(TokenId(8192)) {
            Some(fee) => {
                r.push(TokenInfo {
                    token_id: TokenId(8192),
                    symbol: "FauxUSD".to_owned(),
                    fee,
                    decimals: 6,
                });
            }
            None => {}
        }
        r
    }
}

} // verus!

//! Quote selection: matching a quote book against a desired target amount.
//!
//! A candidate order is filled either in full (all-or-nothing) or to an
//! exact partial-fill value.  The *balance sheet* of an order at a given
//! fill value lists, per token, the net amount the counterparty must supply
//! (positive) or receives (negative): the counterparty receives the filled
//! part of the pseudo-output and supplies every required output in full and
//! every partial-fill output scaled proportionally to the fill, rounded up
//! in the originator's favour.  A quote is a candidate when its balance
//! sheet resolves to exactly two tokens and owes a representable positive
//! amount under the paying token; the cheapest candidate wins.

use vstd::prelude::*;
use vstd::arithmetic::div_mod::{
    lemma_div_is_ordered, lemma_div_pos_is_pos, lemma_fundamental_div_mod_converse,
};
use vstd::arithmetic::mul::lemma_mul_inequality;
use crate::quote::SciAmounts;
use crate::types::{Amount, TokenId};

verus! {

/// `a / d` rounded up, for `d > 0`.
pub open spec fn ceil_div(a: int, d: int) -> int {
    (a + d - 1) / d
}

/// What the counterparty owes for one partial-fill output of value `c` when
/// filling `v` out of the order's full value `f`: the proportional share
/// `c * v / f`, rounded up.
pub open spec fn scaled_output_cost(c: u64, v: u64, f: u64) -> int {
    if v == 0 {
        0
    } else {
        ceil_div(c * v, f as int)
    }
}

/// Sum of the values in `s` that are in token `t`.
pub open spec fn sum_required(s: Seq<Amount>, t: TokenId) -> int
    decreases s.len(),
{
    if s.len() == 0 {
        0
    } else {
        (if s[0].token_id == t {
            s[0].value as int
        } else {
            0
        }) + sum_required(s.drop_first(), t)
    }
}

/// Sum of the scaled costs of the outputs in `s` that are in token `t`.
pub open spec fn sum_scaled(s: Seq<Amount>, t: TokenId, v: u64, f: u64) -> int
    decreases s.len(),
{
    if s.len() == 0 {
        0
    } else {
        (if s[0].token_id == t {
            scaled_output_cost(s[0].value, v, f)
        } else {
            0
        }) + sum_scaled(s.drop_first(), t, v, f)
    }
}

/// How much of the pseudo-output the counterparty takes: the fill value
/// when the order permits partial fills, its full value otherwise.
pub open spec fn consumed_value(a: SciAmounts, fill_value: u64) -> int {
    if a.partial_fill_change is Some {
        fill_value as int
    } else {
        a.pseudo_output.value as int
    }
}

/// When a balance sheet at `fill_value` is meaningful: a partial-fill order
/// must have its change equal to the pseudo-output and a fill within the
/// full value; an all-or-nothing order is only consumed whole.
pub open spec fn sheet_pre(a: SciAmounts, fill_value: u64) -> bool {
    match a.partial_fill_change {
        Some(change) => change == a.pseudo_output && fill_value <= a.pseudo_output.value,
        None => fill_value == 0,
    }
}

/// The net amount of token `t` the counterparty must supply (negative: it
/// receives) to fill the order to `fill_value`.
pub open spec fn net_supplied(a: SciAmounts, fill_value: u64, t: TokenId) -> int {
    sum_required(a.required_outputs@, t) + sum_scaled(
        a.partial_fill_outputs@,
        t,
        fill_value,
        a.pseudo_output.value,
    ) - (if a.pseudo_output.token_id == t {
        consumed_value(a, fill_value)
    } else {
        0
    })
}

/// The partial net while the sheet is being accumulated: required outputs
/// up to `n_req` and partial-fill outputs up to `n_pf` have been applied.
pub open spec fn partial_net(
    a: SciAmounts,
    fill_value: u64,
    t: TokenId,
    n_req: int,
    n_pf: int,
) -> int {
    sum_required(a.required_outputs@.take(n_req), t) + sum_scaled(
        a.partial_fill_outputs@.take(n_pf),
        t,
        fill_value,
        a.pseudo_output.value,
    ) - (if a.pseudo_output.token_id == t {
        consumed_value(a, fill_value)
    } else {
        0
    })
}

/// `0 <= ceil_div(c * v, f) <= c` when `0 < v <= f`.
proof fn lemma_scaled_cost_bounds(c: u64, v: u64, f: u64)
    requires
        v <= f,
    ensures
        0 <= scaled_output_cost(c, v, f) <= c,
{
    if v > 0 {
        let cv = c as int * v as int;
        let fi = f as int;
        assert(cv >= 0) by (nonlinear_arith)
            requires cv == c as int * v as int;
        lemma_div_pos_is_pos(cv + fi - 1, fi);
        lemma_mul_inequality(v as int, fi, c as int);
        assert(v as int * c as int == cv) by (nonlinear_arith)
            requires cv == c as int * v as int;
        assert(fi * c as int == c as int * fi) by (nonlinear_arith);
        // (c * f + f - 1) / f == c
        assert(c as int * fi + fi - 1 == c as int * fi + (fi - 1));
        lemma_fundamental_div_mod_converse(c as int * fi + fi - 1, fi, c as int, fi - 1);
        lemma_div_is_ordered(cv + fi - 1, c as int * fi + fi - 1, fi);
    }
}

/// Appending one more entry to a required-output prefix adds that entry's
/// contribution.
proof fn lemma_sum_required_take_succ(s: Seq<Amount>, t: TokenId, i: int)
    requires
        0 <= i < s.len(),
    ensures
        sum_required(s.take(i + 1), t) == sum_required(s.take(i), t) + (if s[i].token_id == t {
            s[i].value as int
        } else {
            0
        }),
    decreases i,
{
    if i == 0 {
        assert(s.take(1)[0] == s[0]);
        assert(s.take(1).drop_first() =~= s.take(0));
        assert(sum_required(s.take(0), t) == 0);
    } else {
        assert(s.take(i + 1)[0] == s[0]);
        assert(s.take(i)[0] == s[0]);
        assert(s.take(i + 1).drop_first() =~= s.drop_first().take(i));
        assert(s.take(i).drop_first() =~= s.drop_first().take(i - 1));
        lemma_sum_required_take_succ(s.drop_first(), t, i - 1);
        assert(s.drop_first()[i - 1] == s[i]);
    }
}

/// Appending one more entry to a partial-fill prefix adds that entry's
/// scaled contribution.
proof fn lemma_sum_scaled_take_succ(s: Seq<Amount>, t: TokenId, v: u64, f: u64, i: int)
    requires
        0 <= i < s.len(),
    ensures
        sum_scaled(s.take(i + 1), t, v, f) == sum_scaled(s.take(i), t, v, f) + (
        if s[i].token_id == t {
            scaled_output_cost(s[i].value, v, f)
        } else {
            0
        }),
    decreases i,
{
    if i == 0 {
        assert(s.take(1)[0] == s[0]);
        assert(s.take(1).drop_first() =~= s.take(0));
        assert(sum_scaled(s.take(0), t, v, f) == 0);
    } else {
        assert(s.take(i + 1)[0] == s[0]);
        assert(s.take(i)[0] == s[0]);
        assert(s.take(i + 1).drop_first() =~= s.drop_first().take(i));
        assert(s.take(i).drop_first() =~= s.drop_first().take(i - 1));
        lemma_sum_scaled_take_succ(s.drop_first(), t, v, f, i - 1);
        assert(s.drop_first()[i - 1] == s[i]);
    }
}

/// A required-output sum over a prefix is between 0 and the prefix length
/// times the largest value.
proof fn lemma_sum_required_bounds(s: Seq<Amount>, t: TokenId)
    ensures
        0 <= sum_required(s, t) <= s.len() * 0xffff_ffff_ffff_ffff,
    decreases s.len(),
{
    if s.len() > 0 {
        lemma_sum_required_bounds(s.drop_first(), t);
        assert((s.len() - 1) * 0xffff_ffff_ffff_ffff + 0xffff_ffff_ffff_ffff
            == s.len() * 0xffff_ffff_ffff_ffff) by (nonlinear_arith);
    }
}

/// A scaled sum over a prefix is between 0 and the prefix length times the
/// largest value, provided the fill is within the full value.
proof fn lemma_sum_scaled_bounds(s: Seq<Amount>, t: TokenId, v: u64, f: u64)
    requires
        v <= f,
    ensures
        0 <= sum_scaled(s, t, v, f) <= s.len() * 0xffff_ffff_ffff_ffff,
    decreases s.len(),
{
    if s.len() > 0 {
        lemma_sum_scaled_bounds(s.drop_first(), t, v, f);
        lemma_scaled_cost_bounds(s[0].value, v, f);
        assert((s.len() - 1) * 0xffff_ffff_ffff_ffff + 0xffff_ffff_ffff_ffff
            == s.len() * 0xffff_ffff_ffff_ffff) by (nonlinear_arith);
    }
}

/// The accumulating net is bounded by the number of contributions applied.
proof fn lemma_partial_net_bounds(a: SciAmounts, fill_value: u64, t: TokenId, n_req: int, n_pf: int)
    requires
        sheet_pre(a, fill_value),
        0 <= n_req <= a.required_outputs@.len(),
        0 <= n_pf <= a.partial_fill_outputs@.len(),
    ensures
        -0xffff_ffff_ffff_ffff <= partial_net(a, fill_value, t, n_req, n_pf)
            <= (n_req + n_pf) * 0xffff_ffff_ffff_ffff,
{
    lemma_sum_required_bounds(a.required_outputs@.take(n_req), t);
    lemma_sum_scaled_bounds(
        a.partial_fill_outputs@.take(n_pf),
        t,
        fill_value,
        a.pseudo_output.value,
    );
    assert(n_req * 0xffff_ffff_ffff_ffff + n_pf * 0xffff_ffff_ffff_ffff
        == (n_req + n_pf) * 0xffff_ffff_ffff_ffff) by (nonlinear_arith);
}

/// The value stored for token `t` in an association list, if any.
pub open spec fn sheet_lookup(s: Seq<(TokenId, i128)>, t: TokenId) -> Option<i128>
    decreases s.len(),
{
    if s.len() == 0 {
        None
    } else if s[0].0 == t {
        Some(s[0].1)
    } else {
        sheet_lookup(s.drop_first(), t)
    }
}

/// The value stored for token `t`, or zero when absent.
pub open spec fn sheet_val(s: Seq<(TokenId, i128)>, t: TokenId) -> int {
    match sheet_lookup(s, t) {
        Some(x) => x as int,
        None => 0,
    }
}

/// Keys in an association list occur at most once.
pub open spec fn unique_keys(s: Seq<(TokenId, i128)>) -> bool {
    forall|i: int, j: int| 0 <= i < j < s.len() ==> (#[trigger] s[i]).0 != (#[trigger] s[j]).0
}

/// In a unique-keyed list, `sheet_lookup` agrees with any entry.
proof fn lemma_sheet_lookup_entry(s: Seq<(TokenId, i128)>, i: int)
    requires
        unique_keys(s),
        0 <= i < s.len(),
    ensures
        sheet_lookup(s, s[i].0) == Some(s[i].1),
    decreases s.len(),
{
    if i > 0 {
        assert(s.drop_first()[i - 1] == s[i]);
        assert(unique_keys(s.drop_first())) by {
            assert(forall|x: int, y: int| 0 <= x < y < s.drop_first().len()
                ==> (#[trigger] s.drop_first()[x]).0 != (#[trigger] s.drop_first()[y]).0) by {
                assert(forall|x: int| 0 <= x < s.drop_first().len()
                    ==> #[trigger] s.drop_first()[x] == s[x + 1]);
            }
        }
        lemma_sheet_lookup_entry(s.drop_first(), i - 1);
    }
}

/// Looking up a key after updating index `i` of the list.
proof fn lemma_sheet_lookup_update(s: Seq<(TokenId, i128)>, i: int, e: (TokenId, i128), t: TokenId)
    requires
        0 <= i < s.len(),
        s[i].0 == e.0,
        unique_keys(s),
    ensures
        sheet_lookup(s.update(i, e), t) == (if t == e.0 {
            Some(e.1)
        } else {
            sheet_lookup(s, t)
        }),
    decreases s.len(),
{
    let s2 = s.update(i, e);
    if i == 0 {
        if t == e.0 {
        } else {
            assert(s2.drop_first() =~= s.drop_first());
        }
    } else {
        assert(s2[0] == s[0]);
        assert(s2.drop_first() =~= s.drop_first().update(i - 1, e));
        assert(s.drop_first()[i - 1] == s[i]);
        assert(unique_keys(s.drop_first())) by {
            assert(forall|x: int| 0 <= x < s.drop_first().len()
                ==> #[trigger] s.drop_first()[x] == s[x + 1]);
        }
        lemma_sheet_lookup_update(s.drop_first(), i - 1, e, t);
        if s[0].0 == t {
            assert(s[i].0 != s[0].0);
        }
    }
}

/// Looking up a key after pushing a new entry whose key is absent.
proof fn lemma_sheet_lookup_push(s: Seq<(TokenId, i128)>, e: (TokenId, i128), t: TokenId)
    requires
        sheet_lookup(s, e.0) is None,
    ensures
        sheet_lookup(s.push(e), t) == (if t == e.0 {
            Some(e.1)
        } else {
            sheet_lookup(s, t)
        }),
    decreases s.len(),
{
    if s.len() == 0 {
        assert(s.push(e)[0] == e);
        assert(s.push(e).drop_first() =~= s);
    } else {
        assert(s.push(e)[0] == s[0]);
        assert(s.push(e).drop_first() =~= s.drop_first().push(e));
        lemma_sheet_lookup_push(s.drop_first(), e, t);
    }
}

/// An absent key means no entry holds it.
proof fn lemma_sheet_lookup_none(s: Seq<(TokenId, i128)>, t: TokenId)
    requires
        sheet_lookup(s, t) is None,
    ensures
        forall|i: int| 0 <= i < s.len() ==> (#[trigger] s[i]).0 != t,
    decreases s.len(),
{
    if s.len() > 0 {
        lemma_sheet_lookup_none(s.drop_first(), t);
        assert(forall|i: int| 1 <= i < s.len() ==> #[trigger] s[i] == s.drop_first()[i - 1]);
    }
}

/// Find the entry of `acc` holding token `t`.
fn find_entry(acc: &Vec<(TokenId, i128)>, t: TokenId) -> (r: Option<usize>)
    requires
        unique_keys(acc@),
    ensures
        r matches Some(j) ==> j < acc@.len() && acc@[j as int].0 == t
            && sheet_lookup(acc@, t) == Some(acc@[j as int].1),
        r is None ==> sheet_lookup(acc@, t) is None,
{
    let mut i: usize = 0;
    while i < acc.len()
        invariant
            unique_keys(acc@),
            i <= acc@.len(),
            forall|k: int| 0 <= k < i ==> (#[trigger] acc@[k]).0 != t,
        decreases acc@.len() - i,
    {
        if acc[i].0 == t {
            proof {
                lemma_sheet_lookup_entry(acc@, i as int);
            }
            return Some(i);
        }
        i = i + 1;
    }
    proof {
        lemma_sheet_lookup_absent(acc@, t);
    }
    None
}

/// A key held by no entry looks up to `None`.
proof fn lemma_sheet_lookup_absent(s: Seq<(TokenId, i128)>, t: TokenId)
    requires
        forall|i: int| 0 <= i < s.len() ==> (#[trigger] s[i]).0 != t,
    ensures
        sheet_lookup(s, t) is None,
    decreases s.len(),
{
    if s.len() > 0 {
        assert(forall|i: int| 0 <= i < s.drop_first().len()
            ==> #[trigger] s.drop_first()[i] == s[i + 1]);
        lemma_sheet_lookup_absent(s.drop_first(), t);
    }
}

/// Add `delta` to the accumulator entry for token `t`, creating it if absent.
fn upsert(acc: &mut Vec<(TokenId, i128)>, t: TokenId, delta: i128)
    requires
        unique_keys(old(acc)@),
        forall|tt: TokenId| -0x7fff_ffff_ffff_ffff_ffff_ffff_ffff_ffff
            <= #[trigger] sheet_val(old(acc)@, tt) + delta
            < 0x8000_0000_0000_0000_0000_0000_0000_0000,
    ensures
        unique_keys(final(acc)@),
        forall|tt: TokenId| #[trigger] sheet_val(final(acc)@, tt) == sheet_val(old(acc)@, tt) + (
        if tt == t {
            delta as int
        } else {
            0
        }),
{
    match find_entry(acc, t) {
        Some(j) => {
            let cur: i128 = acc[j].1;
            proof {
                assert(sheet_val(acc@, t) == cur);
            }
            let updated: i128 = cur + delta;
            let ghost pre = acc@;
            acc.set(j, (t, updated));
            proof {
                assert forall|tt: TokenId| #[trigger] sheet_val(acc@, tt)
                    == sheet_val(pre, tt) + (if tt == t { delta as int } else { 0 }) by {
                    lemma_sheet_lookup_update(pre, j as int, (t, updated), tt);
                }
                assert(unique_keys(acc@)) by {
                    assert(forall|i: int| 0 <= i < acc@.len()
                        ==> (#[trigger] acc@[i]).0 == pre[i].0);
                }
            }
        }
        None => {
            let ghost pre = acc@;
            acc.push((t, delta));
            proof {
                assert forall|tt: TokenId| #[trigger] sheet_val(acc@, tt)
                    == sheet_val(pre, tt) + (if tt == t { delta as int } else { 0 }) by {
                    lemma_sheet_lookup_push(pre, (t, delta), tt);
                }
                assert(unique_keys(acc@)) by {
                    lemma_sheet_lookup_none(pre, t);
                    assert(forall|i: int| 0 <= i < pre.len() ==> #[trigger] acc@[i] == pre[i]);
                    assert(acc@[pre.len() as int] == (t, delta));
                }
            }
        }
    }
}

/// A present key is held by some entry.
proof fn lemma_sheet_lookup_some_index(s: Seq<(TokenId, i128)>, t: TokenId)
    requires
        sheet_lookup(s, t) is Some,
    ensures
        exists|i: int| 0 <= i < s.len() && (#[trigger] s[i]).0 == t
            && s[i].1 == sheet_lookup(s, t)->0,
    decreases s.len(),
{
    if s.len() > 0 && s[0].0 != t {
        lemma_sheet_lookup_some_index(s.drop_first(), t);
        let i = choose|i: int| 0 <= i < s.drop_first().len() && (#[trigger] s.drop_first()[i]).0
            == t && s.drop_first()[i].1 == sheet_lookup(s.drop_first(), t)->0;
        assert(s[i + 1] == s.drop_first()[i]);
    }
}

/// Extending the scanned prefix by one entry extends what is found in it.
proof fn lemma_sheet_lookup_take_succ(s: Seq<(TokenId, i128)>, k: int, t: TokenId)
    requires
        0 <= k < s.len(),
    ensures
        sheet_lookup(s.take(k + 1), t) == (if sheet_lookup(s.take(k), t) is Some {
            sheet_lookup(s.take(k), t)
        } else if s[k].0 == t {
            Some(s[k].1)
        } else {
            None
        }),
    decreases k,
{
    if k == 0 {
        assert(s.take(1)[0] == s[0]);
        assert(s.take(1).drop_first() =~= s.take(0));
    } else {
        assert(s.take(k + 1)[0] == s[0]);
        assert(s.take(k)[0] == s[0]);
        assert(s.take(k + 1).drop_first() =~= s.drop_first().take(k));
        assert(s.take(k).drop_first() =~= s.drop_first().take(k - 1));
        lemma_sheet_lookup_take_succ(s.drop_first(), k - 1, t);
        assert(s.drop_first()[k - 1] == s[k]);
    }
}

/// An optional entry value with zeroes dropped.
pub open spec fn nonzero_entry(o: Option<i128>) -> Option<i128> {
    match o {
        Some(x) => if x != 0 {
            Some(x)
        } else {
            None
        },
        None => None,
    }
}

/// Compute one scaled output cost.
fn scaled_cost_u64(c: u64, v: u64, f: u64) -> (r: u64)
    requires
        v <= f,
    ensures
        r == scaled_output_cost(c, v, f),
{
    if v == 0 {
        0
    } else {
        proof {
            lemma_scaled_cost_bounds(c, v, f);
            assert(c as int * v as int <= 0xffff_ffff_ffff_fffe_0000_0000_0000_0001)
                by (nonlinear_arith)
                requires
                    c <= 0xffff_ffff_ffff_ffff,
                    v <= 0xffff_ffff_ffff_ffff,
            ;
        }
        let prod: u128 = (c as u128) * (v as u128);
        let fi: u128 = f as u128;
        let q: u128 = (prod + fi - 1) / fi;
        q as u64
    }
}

/// The balance sheet of the order `a` filled to `fill_value`: one entry per
/// token with a nonzero net, holding the net amount the counterparty must
/// supply (negative: receives).
pub fn compute_balance_sheet(a: &SciAmounts, fill_value: u64) -> (r: Vec<(TokenId, i128)>)
    requires
        a.wf(),
        sheet_pre(*a, fill_value),
    ensures
        unique_keys(r@),
        forall|t: TokenId| #[trigger] sheet_lookup(r@, t) == (
        if net_supplied(*a, fill_value, t) != 0 {
            Some(net_supplied(*a, fill_value, t) as i128)
        } else {
            None::<i128>
        }),
{
    let ghost v = fill_value;
    let f: u64 = a.pseudo_output.value;
    let consumed: u64 = if a.partial_fill_change.is_some() {
        fill_value
    } else {
        f
    };
    let n_req: usize = a.required_outputs.len();
    let n_pf: usize = a.partial_fill_outputs.len();
    let mut acc: Vec<(TokenId, i128)> = Vec::new();
    proof {
        assert(sheet_lookup(acc@, a.pseudo_output.token_id) is None);
        assert(forall|tt: TokenId| #[trigger] sheet_val(acc@, tt) == 0);
    }
    upsert(&mut acc, a.pseudo_output.token_id, -(consumed as i128));
    proof {
        assert(a.required_outputs@.take(0) =~= Seq::<Amount>::empty());
        assert(a.partial_fill_outputs@.take(0) =~= Seq::<Amount>::empty());
    }
    let mut i: usize = 0;
    while i < n_req
        invariant
            i <= n_req == a.required_outputs@.len(),
            n_pf == a.partial_fill_outputs@.len(),
            a.wf(),
            sheet_pre(*a, v),
            v == fill_value,
            unique_keys(acc@),
            forall|tt: TokenId| #[trigger] sheet_val(acc@, tt) == partial_net(
                *a, v, tt, i as int, 0),
        decreases n_req - i,
    {
        let out: Amount = a.required_outputs[i];
        proof {
            assert forall|tt: TokenId| -0x7fff_ffff_ffff_ffff_ffff_ffff_ffff_ffff
                <= #[trigger] sheet_val(acc@, tt) + (out.value as i128)
                < 0x8000_0000_0000_0000_0000_0000_0000_0000 by {
                lemma_partial_net_bounds(*a, v, tt, i as int, 0);
            }
        }
        let ghost pre = acc@;
        upsert(&mut acc, out.token_id, out.value as i128);
        proof {
            assert forall|tt: TokenId| #[trigger] sheet_val(acc@, tt) == partial_net(
                *a, v, tt, i + 1, 0) by {
                lemma_sum_required_take_succ(a.required_outputs@, tt, i as int);
            }
        }
        i = i + 1;
    }
    let mut j: usize = 0;
    while j < n_pf
        invariant
            j <= n_pf == a.partial_fill_outputs@.len(),
            n_req == a.required_outputs@.len(),
            a.wf(),
            sheet_pre(*a, v),
            v == fill_value,
            f == a.pseudo_output.value,
            unique_keys(acc@),
            forall|tt: TokenId| #[trigger] sheet_val(acc@, tt) == partial_net(
                *a, v, tt, n_req as int, j as int),
        decreases n_pf - j,
    {
        let out: Amount = a.partial_fill_outputs[j];
        let cost: u64 = scaled_cost_u64(out.value, fill_value, f);
        proof {
            assert forall|tt: TokenId| -0x7fff_ffff_ffff_ffff_ffff_ffff_ffff_ffff
                <= #[trigger] sheet_val(acc@, tt) + (cost as i128)
                < 0x8000_0000_0000_0000_0000_0000_0000_0000 by {
                lemma_partial_net_bounds(*a, v, tt, n_req as int, j as int);
            }
        }
        upsert(&mut acc, out.token_id, cost as i128);
        proof {
            assert forall|tt: TokenId| #[trigger] sheet_val(acc@, tt) == partial_net(
                *a, v, tt, n_req as int, j + 1) by {
                lemma_sum_scaled_take_succ(a.partial_fill_outputs@, tt, v, f, j as int);
            }
        }
        j = j + 1;
    }
    proof {
        assert(a.required_outputs@.take(n_req as int) =~= a.required_outputs@);
        assert(a.partial_fill_outputs@.take(n_pf as int) =~= a.partial_fill_outputs@);
        assert(forall|tt: TokenId| #[trigger] sheet_val(acc@, tt) == net_supplied(*a, v, tt));
    }
    // keep only the tokens with a nonzero net
    let mut r: Vec<(TokenId, i128)> = Vec::new();
    let mut k: usize = 0;
    while k < acc.len()
        invariant
            k <= acc@.len(),
            unique_keys(acc@),
            forall|tt: TokenId| #[trigger] sheet_val(acc@, tt) == net_supplied(*a, v, tt),
            unique_keys(r@),
            forall|tt: TokenId| #[trigger] sheet_lookup(r@, tt) == nonzero_entry(
                sheet_lookup(acc@.take(k as int), tt)),
        decreases acc@.len() - k,
    {
        let entry: (TokenId, i128) = acc[k];
        let ghost pre = r@;
        if entry.1 != 0 {
            proof {
                assert forall|m: int| 0 <= m < acc@.take(k as int).len()
                    implies (#[trigger] acc@.take(k as int)[m]).0 != entry.0 by {
                    assert(acc@.take(k as int)[m] == acc@[m]);
                }
                lemma_sheet_lookup_absent(acc@.take(k as int), entry.0);
                assert(sheet_lookup(pre, entry.0) is None);
            }
            r.push(entry);
            proof {
                assert forall|tt: TokenId| #[trigger] sheet_lookup(r@, tt) == nonzero_entry(
                    sheet_lookup(acc@.take(k + 1), tt)) by {
                    lemma_sheet_lookup_push(pre, entry, tt);
                    lemma_sheet_lookup_take_succ(acc@, k as int, tt);
                }
                assert(unique_keys(r@)) by {
                    lemma_sheet_lookup_none(pre, entry.0);
                    assert(forall|m: int| 0 <= m < pre.len() ==> #[trigger] r@[m] == pre[m]);
                    assert(r@[pre.len() as int] == entry);
                }
            }
        } else {
            proof {
                assert forall|tt: TokenId| #[trigger] sheet_lookup(r@, tt) == nonzero_entry(
                    sheet_lookup(acc@.take(k + 1), tt)) by {
                    lemma_sheet_lookup_take_succ(acc@, k as int, tt);
                }
            }
        }
        k = k + 1;
    }
    proof {
        assert(acc@.take(acc@.len() as int) =~= acc@);
        assert forall|t: TokenId| #[trigger] sheet_lookup(r@, t) == (
        if net_supplied(*a, fill_value, t) != 0 {
            Some(net_supplied(*a, fill_value, t) as i128)
        } else {
            None::<i128>
        }) by {
            if sheet_lookup(acc@, t) is Some {
                assert(sheet_val(acc@, t) == net_supplied(*a, v, t));
            } else {
                assert(sheet_val(acc@, t) == 0);
            }
        }
    }
    r
}

/// A net is bounded by the number of outputs times the largest value.
proof fn lemma_net_supplied_bounds(a: SciAmounts, fill_value: u64, t: TokenId)
    requires
        sheet_pre(a, fill_value),
    ensures
        -0xffff_ffff_ffff_ffff <= net_supplied(a, fill_value, t)
            <= (a.required_outputs@.len() + a.partial_fill_outputs@.len())
            * 0xffff_ffff_ffff_ffff,
{
    lemma_sum_required_bounds(a.required_outputs@, t);
    lemma_sum_scaled_bounds(a.partial_fill_outputs@, t, fill_value, a.pseudo_output.value);
    assert(a.required_outputs@.len() * 0xffff_ffff_ffff_ffff
        + a.partial_fill_outputs@.len() * 0xffff_ffff_ffff_ffff
        == (a.required_outputs@.len() + a.partial_fill_outputs@.len()) * 0xffff_ffff_ffff_ffff)
        by (nonlinear_arith);
}

/// The tokens with a nonzero net at `fill_value` are exactly the distinct
/// pair `t1`, `t2`.
pub open spec fn resolves_to(a: SciAmounts, fill_value: u64, t1: TokenId, t2: TokenId) -> bool {
    &&& t1 != t2
    &&& net_supplied(a, fill_value, t1) != 0
    &&& net_supplied(a, fill_value, t2) != 0
    &&& forall|t: TokenId| #[trigger] net_supplied(a, fill_value, t) != 0 ==> t == t1 || t == t2
}

/// Whether the balance sheet of `a` at `fill_value` resolves to exactly two
/// distinct tokens with a nonzero net.
pub open spec fn two_token_sheet(a: SciAmounts, fill_value: u64) -> bool {
    exists|t1: TokenId, t2: TokenId| #[trigger] resolves_to(a, fill_value, t1, t2)
}

/// What evaluating one quote against the target yields: the partial-fill
/// value and the cost in the paying token, or nothing when the quote is not
/// a candidate.  A partial-fill order must cover the target in full and is
/// filled to exactly the target value; an all-or-nothing order must match
/// it exactly.  In either case the balance sheet must resolve to exactly
/// two tokens and owe a positive representable amount under `from_token_id`.
pub open spec fn spec_candidate(
    q: crate::quote::ValidatedQuote,
    from_token_id: TokenId,
    to_amount: Amount,
) -> Option<(u64, u64)> {
    let a = q.amounts;
    if a.pseudo_output.token_id != to_amount.token_id {
        None
    } else if a.partial_fill_change is Some {
        if a.partial_fill_change->0 != a.pseudo_output {
            None
        } else if a.pseudo_output.value < to_amount.value {
            None
        } else {
            candidate_from_sheet(a, to_amount.value, from_token_id)
        }
    } else {
        if a.pseudo_output.value != to_amount.value {
            None
        } else {
            candidate_from_sheet(a, 0, from_token_id)
        }
    }
}

/// The candidate read off a balance sheet: defined when the sheet resolves
/// to exactly two tokens and owes a positive `u64` amount under `from`.
pub open spec fn candidate_from_sheet(a: SciAmounts, fill_value: u64, from: TokenId) -> Option<
    (u64, u64),
> {
    if !two_token_sheet(a, fill_value) {
        None
    } else {
        let cost = net_supplied(a, fill_value, from);
        if 1 <= cost <= u64::MAX {
            Some((fill_value, cost as u64))
        } else {
            None
        }
    }
}

/// Evaluate one quote against the target amount.
fn evaluate_quote(q: &crate::quote::ValidatedQuote, from_token_id: TokenId, to_amount: Amount) -> (r:
    Option<(u64, u64)>)
    requires
        q.wf(),
    ensures
        r == spec_candidate(*q, from_token_id, to_amount),
{
    let a = &q.amounts;
    if a.pseudo_output.token_id != to_amount.token_id {
        return None;
    }
    let fill_value: u64;
    match &a.partial_fill_change {
        Some(change) => {
            if change.value != a.pseudo_output.value
                || change.token_id != a.pseudo_output.token_id {
                return None;
            }
            if a.pseudo_output.value < to_amount.value {
                return None;
            }
            fill_value = to_amount.value;
        }
        None => {
            if a.pseudo_output.value != to_amount.value {
                return None;
            }
            fill_value = 0;
        }
    }
    let sheet: Vec<(TokenId, i128)> = compute_balance_sheet(a, fill_value);
    if sheet.len() != 2 {
        proof {
            lemma_sheet_len_vs_two_tokens(*a, fill_value, sheet@);
        }
        return None;
    }
    proof {
        lemma_sheet_len_vs_two_tokens(*a, fill_value, sheet@);
    }
    match find_entry(&sheet, from_token_id) {
        Some(j) => {
            let cost: i128 = sheet[j].1;
            proof {
                lemma_net_supplied_bounds(*a, fill_value, from_token_id);
                lemma_mul_inequality(
                    a.required_outputs@.len() + a.partial_fill_outputs@.len() as int,
                    128,
                    0xffff_ffff_ffff_ffff,
                );
                assert(cost as int == net_supplied(*a, fill_value, from_token_id));
            }
            if cost >= 1 && cost <= 0xffff_ffff_ffff_ffff {
                Some((fill_value, cost as u64))
            } else {
                None
            }
        }
        None => None,
    }
}

/// A sheet meeting the `compute_balance_sheet` contract has length two
/// exactly when the net resolves to two distinct tokens.
#[verifier::rlimit(50)]
proof fn lemma_sheet_len_vs_two_tokens(a: SciAmounts, fill_value: u64, s: Seq<(TokenId, i128)>)
    requires
        unique_keys(s),
        forall|t: TokenId| #[trigger] sheet_lookup(s, t) == (
        if net_supplied(a, fill_value, t) != 0 {
            Some(net_supplied(a, fill_value, t) as i128)
        } else {
            None::<i128>
        }),
    ensures
        s.len() == 2 <==> two_token_sheet(a, fill_value),
{
    if s.len() == 2 {
        let t1 = s[0].0;
        let t2 = s[1].0;
        lemma_sheet_lookup_entry(s, 0);
        lemma_sheet_lookup_entry(s, 1);
        assert(net_supplied(a, fill_value, t1) != 0);
        assert(net_supplied(a, fill_value, t2) != 0);
        assert forall|t: TokenId| #[trigger] net_supplied(a, fill_value, t) != 0 implies t == t1
            || t == t2 by {
            lemma_sheet_lookup_some_index(s, t);
        }
        assert(resolves_to(a, fill_value, t1, t2));
        assert(two_token_sheet(a, fill_value));
    }
    if two_token_sheet(a, fill_value) {
        let (t1, t2) = choose|t1: TokenId, t2: TokenId| #[trigger] resolves_to(
            a, fill_value, t1, t2);
        lemma_sheet_lookup_some_index(s, t1);
        lemma_sheet_lookup_some_index(s, t2);
        let i1 = choose|i: int| 0 <= i < s.len() && (#[trigger] s[i]).0 == t1
            && s[i].1 == sheet_lookup(s, t1)->0;
        let i2 = choose|i: int| 0 <= i < s.len() && (#[trigger] s[i]).0 == t2
            && s[i].1 == sheet_lookup(s, t2)->0;
        assert(i1 != i2);
        assert(s.len() >= 2);
        if s.len() > 2 {
            lemma_sheet_lookup_entry(s, 0);
            lemma_sheet_lookup_entry(s, 1);
            lemma_sheet_lookup_entry(s, 2);
            assert(net_supplied(a, fill_value, s[0].0) != 0);
            assert(net_supplied(a, fill_value, s[1].0) != 0);
            assert(net_supplied(a, fill_value, s[2].0) != 0);
            assert(false);
        }
    }
}

/// A quote whose pseudo-output is in a different token than the target is
/// never a candidate; in particular a book of such quotes yields no
/// selection.
pub proof fn lemma_mismatched_quote_no_candidate(
    q: crate::quote::ValidatedQuote,
    from_token_id: TokenId,
    to_amount: Amount,
)
    requires
        q.amounts.pseudo_output.token_id != to_amount.token_id,
    ensures
        spec_candidate(q, from_token_id, to_amount) is None,
{
}

/// Partial fills are priced proportionally: filling a simple partial-fill
/// order (full value `f` of the target token, one partial-fill output of
/// `c > 0` in the paying token, no required outputs) to a target
/// `0 < v <= f` is a candidate at fill value `v` costing the proportional
/// share `c * v / f` rounded up -- never the order's full counter value.
pub proof fn lemma_partial_fill_cost_proportional(
    q: crate::quote::ValidatedQuote,
    from_token_id: TokenId,
    to_amount: Amount,
)
    requires
        q.amounts.pseudo_output.token_id == to_amount.token_id,
        q.amounts.partial_fill_change == Some(q.amounts.pseudo_output),
        q.amounts.required_outputs@.len() == 0,
        q.amounts.partial_fill_outputs@.len() == 1,
        q.amounts.partial_fill_outputs@[0].token_id == from_token_id,
        from_token_id != to_amount.token_id,
        0 < to_amount.value <= q.amounts.pseudo_output.value,
        q.amounts.partial_fill_outputs@[0].value > 0,
    ensures
        spec_candidate(q, from_token_id, to_amount) == Some(
            (
                to_amount.value,
                ceil_div(
                    q.amounts.partial_fill_outputs@[0].value * to_amount.value,
                    q.amounts.pseudo_output.value as int,
                ) as u64,
            ),
        ),
{
    let a = q.amounts;
    let v = to_amount.value;
    let f = a.pseudo_output.value;
    let c = a.partial_fill_outputs@[0].value;
    let cost = scaled_output_cost(c, v, f);
    assert(a.partial_fill_outputs@.drop_first() =~= Seq::<Amount>::empty());
    // the net of each token
    assert forall|t: TokenId| #[trigger] net_supplied(a, v, t) == (if t == from_token_id {
        cost
    } else if t == to_amount.token_id {
        -(v as int)
    } else {
        0
    }) by {
        assert(sum_required(a.required_outputs@, t) == 0);
        assert(sum_scaled(a.partial_fill_outputs@.drop_first(), t, v, f) == 0);
    }
    // the proportional cost is positive, and at most the full counter value
    lemma_scaled_cost_bounds(c, v, f);
    assert(c * v >= 1) by (nonlinear_arith)
        requires c >= 1 && v >= 1;
    lemma_fundamental_div_mod_converse(f as int, f as int, 1, 0);
    lemma_div_is_ordered(f as int, c * v + f - 1, f as int);
    assert(cost >= 1);
    // exactly the two legs carry a nonzero net
    assert(resolves_to(a, v, from_token_id, to_amount.token_id));
    assert(two_token_sheet(a, v));
}

/// An all-or-nothing order (no partial-fill change, one required output of
/// `c > 0` in the paying token) whose pseudo-output matches the target
/// exactly is a candidate at fill value zero costing its full counter
/// value `c`.
pub proof fn lemma_all_or_nothing_candidate(
    q: crate::quote::ValidatedQuote,
    from_token_id: TokenId,
    to_amount: Amount,
)
    requires
        q.amounts.pseudo_output.token_id == to_amount.token_id,
        q.amounts.pseudo_output.value == to_amount.value,
        q.amounts.partial_fill_change is None,
        q.amounts.partial_fill_outputs@.len() == 0,
        q.amounts.required_outputs@.len() == 1,
        q.amounts.required_outputs@[0].token_id == from_token_id,
        from_token_id != to_amount.token_id,
        q.amounts.required_outputs@[0].value > 0,
        to_amount.value > 0,
    ensures
        spec_candidate(q, from_token_id, to_amount) == Some(
            (0u64, q.amounts.required_outputs@[0].value),
        ),
{
    let a = q.amounts;
    let c = a.required_outputs@[0].value;
    assert(a.required_outputs@.drop_first() =~= Seq::<Amount>::empty());
    assert forall|t: TokenId| #[trigger] net_supplied(a, 0, t) == (if t == from_token_id {
        c as int
    } else if t == to_amount.token_id {
        -(to_amount.value as int)
    } else {
        0
    }) by {
        assert(sum_scaled(a.partial_fill_outputs@, t, 0, a.pseudo_output.value) == 0);
        assert(sum_required(a.required_outputs@.drop_first(), t) == 0);
    }
    assert(resolves_to(a, 0, from_token_id, to_amount.token_id));
    assert(two_token_sheet(a, 0));
}

/// The outcome of selecting the best quote to obtain one amount.
#[derive(Debug)]
pub struct QuoteSelection {
    /// The signed order that was selected, as its encoded bytes.
    pub sci: Vec<u8>,
    /// The partial-fill value to use when fulfilling the order.
    pub partial_fill_value: u64,
    /// The amount of the paying token that must be supplied.
    pub from_u64_value: u64,
    /// The supplied amount as a decimal at the paying token's scale.
    pub from_value_decimal: crate::decimal::ScaledDecimal,
}

/// The quote at `i` is a candidate costing `cost` at fill `pfv`, no quote
/// beats that cost, and no earlier quote matches it.
pub open spec fn best_candidate_at(
    book: Seq<crate::quote::ValidatedQuote>,
    from_token_id: TokenId,
    to_amount: Amount,
    i: int,
    pfv: u64,
    cost: u64,
) -> bool {
    &&& 0 <= i < book.len()
    &&& spec_candidate(book[i], from_token_id, to_amount) == Some((pfv, cost))
    &&& forall|j: int| 0 <= j < book.len()
        ==> (#[trigger] spec_candidate(book[j], from_token_id, to_amount) matches Some(c)
            ==> c.1 >= cost)
    &&& forall|j: int| 0 <= j < i
        ==> (#[trigger] spec_candidate(book[j], from_token_id, to_amount) matches Some(c)
            ==> c.1 > cost)
}

impl QuoteSelection {
    /// Select the cheapest quote from `quote_book` that can supply exactly
    /// `to_amount`, paying in `from_token_id`.  The result carries the
    /// first quote attaining the minimal cost; when no quote is a
    /// candidate, the selection fails with "insufficient liquidity".
    pub fn new(
        quote_book: &[crate::quote::ValidatedQuote],
        from_token_id: TokenId,
        from_token_info: &crate::types::TokenInfo,
        to_amount: Amount,
    ) -> (r: Result<QuoteSelection, String>)
        requires
            from_token_info.wf(),
            forall|i: int| 0 <= i < quote_book@.len() ==> (#[trigger] quote_book@[i]).wf(),
        ensures
            r is Err <==> (forall|i: int| 0 <= i < quote_book@.len()
                ==> #[trigger] spec_candidate(quote_book@[i], from_token_id, to_amount) is None),
            r matches Err(e) ==> e@ == "insufficient liquidity"@,
            r matches Ok(sel) ==> (exists|i: int|
                best_candidate_at(
                    quote_book@,
                    from_token_id,
                    to_amount,
                    i,
                    sel.partial_fill_value,
                    sel.from_u64_value,
                ) && sel.sci@ == (#[trigger] quote_book@[i]).sci@)
                && sel.from_value_decimal == (crate::decimal::ScaledDecimal {
                    negative: false,
                    mantissa: sel.from_u64_value as u128,
                    scale: from_token_info.decimals,
                }),
    {
        let mut best: Option<(usize, u64, u64)> = None;
        let mut i: usize = 0;
        while i < quote_book.len()
            invariant
                i <= quote_book@.len(),
                forall|k: int| 0 <= k < quote_book@.len() ==> (#[trigger] quote_book@[k]).wf(),
                best is None ==> (forall|j: int| 0 <= j < i
                    ==> #[trigger] spec_candidate(quote_book@[j], from_token_id, to_amount)
                        is None),
                best matches Some(b) ==> ({
                    &&& (b.0 as int) < i
                    &&& spec_candidate(quote_book@[b.0 as int], from_token_id, to_amount)
                        == Some((b.1, b.2))
                    &&& forall|j: int| 0 <= j < i
                        ==> (#[trigger] spec_candidate(quote_book@[j], from_token_id, to_amount)
                            matches Some(c) ==> c.1 >= b.2)
                    &&& forall|j: int| 0 <= j < b.0
                        ==> (#[trigger] spec_candidate(quote_book@[j], from_token_id, to_amount)
                            matches Some(c) ==> c.1 > b.2)
                }),
            decreases quote_book@.len() - i,
        {
            match evaluate_quote(&quote_book[i], from_token_id, to_amount) {
                Some((pfv, cost)) => {
                    match best {
                        None => {
                            best = Some((i, pfv, cost));
                        }
                        Some(b) => {
                            if cost < b.2 {
                                best = Some((i, pfv, cost));
                            }
                        }
                    }
                }
                None => {}
            }
            i = i + 1;
        }
        match best {
            Some((bi, pfv, cost)) => {
                let sci: Vec<u8> = quote_book[bi].sci.clone();
                proof {
                    assert(sci@ =~= quote_book@[bi as int].sci@);
                }
                Ok(QuoteSelection {
                    sci,
                    partial_fill_value: pfv,
                    from_u64_value: cost,
                    from_value_decimal: crate::decimal::from_smallest_units(
                        cost,
                        from_token_info.decimals,
                    ),
                })
            }
            None => Err("insufficient liquidity".to_owned()),
        }
    }
}

} // verus!

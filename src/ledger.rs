//! Balances computed from a set of transfers, reversal accounting, and the
//! integrity report.
use crate::ids::{TransferId, WalletId};
use crate::money::Cents;
use crate::transfer::Transfer;
use crate::wallet::{Wallet, WalletType};
use std::collections::HashMap;
use vstd::prelude::*;
use vstd::std_specs::hash::spec_hash_map_iter;
use vstd::std_specs::iter::IteratorSpec;
use vstd::set::fold::{is_fun_commutative, lemma_fold_empty, lemma_fold_insert};

verus! {

broadcast use vstd::std_specs::hash::group_hash_axioms;

/// How one transfer changes a wallet's balance: it gains what arrives and
/// loses what leaves (a transfer to itself changes nothing).
pub open spec fn net_change(w: WalletId, t: Transfer) -> int {
    (if t.to_wallet == w {
        t.amount_cents as int
    } else {
        0
    }) - (if t.from_wallet == w {
        t.amount_cents as int
    } else {
        0
    })
}

/// The balance of a wallet after a sequence of transfers.
pub open spec fn balance_of(w: WalletId, s: Seq<Transfer>) -> int
    decreases s.len(),
{
    if s.len() == 0 {
        0
    } else {
        balance_of(w, s.drop_last()) + net_change(w, s.last())
    }
}

/// Whether some transfer of `s` leaves from or arrives at `w`.
pub open spec fn touches(s: Seq<Transfer>, w: WalletId) -> bool {
    exists|i: int| 0 <= i < s.len() && (s[i].from_wallet == w || s[i].to_wallet == w)
}

pub open spec fn touched(s: Seq<Transfer>) -> Set<WalletId> {
    Set::new(|w: WalletId| touches(s, w))
}

/// The balance of every wallet that the transfers touch.
pub open spec fn balance_map(s: Seq<Transfer>) -> Map<WalletId, int> {
    Map::new(|w: WalletId| touches(s, w), |w: WalletId| balance_of(w, s))
}

/// Whether a number fits in `Cents`.
pub open spec fn fits_cents(x: int) -> bool {
    i64::MIN <= x <= i64::MAX
}

/// The sum of the amounts of the transfers that reverse `original`.
pub open spec fn reversed_total(original: TransferId, s: Seq<Transfer>) -> int
    decreases s.len(),
{
    if s.len() == 0 {
        0
    } else {
        reversed_total(original, s.drop_last()) + if s.last().reverses == Some(original) {
            s.last().amount_cents as int
        } else {
            0
        }
    }
}

pub open spec fn adder(f: spec_fn(WalletId) -> int) -> spec_fn(int, WalletId) -> int {
    |acc: int, w: WalletId| acc + f(w)
}

/// The sum of `f` over a finite set of wallets.
pub open spec fn sum_over(ws: Set<WalletId>, f: spec_fn(WalletId) -> int) -> int {
    ws.fold(0int, adder(f))
}

/// The sum of all the balances of a map.
pub open spec fn map_total(m: Map<WalletId, int>) -> int {
    sum_over(m.dom(), |w: WalletId| m[w])
}

/// The map's balances as mathematical integers.
pub open spec fn as_int_map(m: Map<WalletId, Cents>) -> Map<WalletId, int> {
    m.map_values(|c: Cents| c as int)
}

proof fn lemma_sum_insert(ws: Set<WalletId>, w: WalletId, f: spec_fn(WalletId) -> int)
    requires
        ws.finite(),
        !ws.contains(w),
    ensures
        sum_over(ws.insert(w), f) == sum_over(ws, f) + f(w),
{
    assert(is_fun_commutative(adder(f)));
    lemma_fold_insert(ws, 0int, adder(f), w);
}

proof fn lemma_sum_empty(f: spec_fn(WalletId) -> int)
    ensures
        sum_over(Set::empty(), f) == 0,
{
    lemma_fold_empty::<WalletId, int>(0int, adder(f));
}

/// Splits a non-empty finite set into one of its elements and the rest.
proof fn lemma_sum_split(ws: Set<WalletId>, f: spec_fn(WalletId) -> int) -> (w: WalletId)
    requires
        ws.finite(),
        ws.len() > 0,
    ensures
        ws.contains(w),
        sum_over(ws, f) == sum_over(ws.remove(w), f) + f(w),
        ws.remove(w).len() < ws.len(),
{
    let w = ws.choose();
    assert(ws.remove(w).insert(w) =~= ws);
    lemma_sum_insert(ws.remove(w), w, f);
    w
}

proof fn lemma_sum_add(
    ws: Set<WalletId>,
    f: spec_fn(WalletId) -> int,
    g: spec_fn(WalletId) -> int,
    h: spec_fn(WalletId) -> int,
)
    requires
        ws.finite(),
        forall|w: WalletId| ws.contains(w) ==> h(w) == f(w) + g(w),
    ensures
        sum_over(ws, h) == sum_over(ws, f) + sum_over(ws, g),
    decreases ws.len(),
{
    if ws.len() == 0 {
        assert(ws =~= Set::empty());
        lemma_sum_empty(f);
        lemma_sum_empty(g);
        lemma_sum_empty(h);
    } else {
        let w = lemma_sum_split(ws, h);
        assert(ws.remove(w).insert(w) =~= ws);
        lemma_sum_insert(ws.remove(w), w, f);
        lemma_sum_insert(ws.remove(w), w, g);
        lemma_sum_add(ws.remove(w), f, g, h);
    }
}

proof fn lemma_sum_point(ws: Set<WalletId>, p: WalletId, f: spec_fn(WalletId) -> int)
    requires
        ws.finite(),
        forall|w: WalletId| ws.contains(w) && w != p ==> f(w) == 0,
    ensures
        sum_over(ws, f) == if ws.contains(p) {
            f(p)
        } else {
            0
        },
    decreases ws.len(),
{
    if ws.len() == 0 {
        assert(ws =~= Set::empty());
        lemma_sum_empty(f);
    } else {
        let w = lemma_sum_split(ws, f);
        lemma_sum_point(ws.remove(w), p, f);
    }
}

proof fn lemma_sum_ext(ws: Set<WalletId>, f: spec_fn(WalletId) -> int, g: spec_fn(WalletId) -> int)
    requires
        ws.finite(),
        forall|w: WalletId| ws.contains(w) ==> f(w) == g(w),
    ensures
        sum_over(ws, f) == sum_over(ws, g),
    decreases ws.len(),
{
    if ws.len() == 0 {
        assert(ws =~= Set::empty());
        lemma_sum_empty(f);
        lemma_sum_empty(g);
    } else {
        let w = lemma_sum_split(ws, f);
        assert(ws.remove(w).insert(w) =~= ws);
        lemma_sum_insert(ws.remove(w), w, g);
        lemma_sum_ext(ws.remove(w), f, g);
    }
}

proof fn lemma_touched(s: Seq<Transfer>)
    ensures
        touched(s).finite(),
        s.len() > 0 ==> touched(s) =~= touched(s.drop_last()).insert(s.last().from_wallet).insert(
            s.last().to_wallet,
        ),
    decreases s.len(),
{
    if s.len() == 0 {
        assert(touched(s) =~= Set::empty());
    } else {
        let p = s.drop_last();
        lemma_touched(p);
        let t = s.last();
        assert forall|w: WalletId| touches(s, w) <==> (touches(p, w) || w == t.from_wallet
            || w == t.to_wallet) by {
            if touches(s, w) {
                let i = choose|i: int|
                    0 <= i < s.len() && (s[i].from_wallet == w || s[i].to_wallet == w);
                if i < s.len() - 1 {
                    assert(p[i] == s[i]);
                }
            }
            if touches(p, w) {
                let i = choose|i: int|
                    0 <= i < p.len() && (p[i].from_wallet == w || p[i].to_wallet == w);
                assert(s[i] == p[i]);
            }
            if w == t.from_wallet || w == t.to_wallet {
                assert(s[s.len() - 1] == t);
            }
        }
        assert(touched(s) =~= touched(p).insert(t.from_wallet).insert(t.to_wallet));
    }
}

/// A wallet that no transfer touches has a zero balance.
proof fn lemma_untouched_balance(w: WalletId, s: Seq<Transfer>)
    requires
        !touches(s, w),
    ensures
        balance_of(w, s) == 0,
    decreases s.len(),
{
    if s.len() > 0 {
        let p = s.drop_last();
        assert(!touches(p, w)) by {
            if touches(p, w) {
                let i = choose|i: int|
                    0 <= i < p.len() && (p[i].from_wallet == w || p[i].to_wallet == w);
                assert(s[i] == p[i]);
            }
        }
        assert(s[s.len() - 1] == s.last());
        lemma_untouched_balance(w, p);
    }
}

/// Over any finite set of wallets that holds every wallet the transfers
/// touch, the balances sum to zero.
proof fn lemma_balances_cancel(ws: Set<WalletId>, s: Seq<Transfer>)
    requires
        ws.finite(),
        touched(s).subset_of(ws),
    ensures
        sum_over(ws, |w: WalletId| balance_of(w, s)) == 0,
    decreases s.len(),
{
    let f = |w: WalletId| balance_of(w, s);
    if s.len() == 0 {
        lemma_sum_ext(ws, f, |w: WalletId| 0);
        lemma_sum_point(ws, 0, |w: WalletId| 0);
    } else {
        let p = s.drop_last();
        let t = s.last();
        lemma_touched(s);
        lemma_balances_cancel(ws, p);
        let g = |w: WalletId| balance_of(w, p);
        let change = |w: WalletId| net_change(w, t);
        lemma_sum_add(ws, g, change, f);
        let gain = |w: WalletId|
            if w == t.to_wallet {
                t.amount_cents as int
            } else {
                0
            };
        let loss = |w: WalletId|
            if w == t.from_wallet {
                -(t.amount_cents as int)
            } else {
                0
            };
        lemma_sum_add(ws, gain, loss, change);
        assert(ws.contains(t.to_wallet));
        assert(ws.contains(t.from_wallet));
        lemma_sum_point(ws, t.to_wallet, gain);
        lemma_sum_point(ws, t.from_wallet, loss);
    }
}

/// Closed system: however the transfers run, the balances of all the
/// wallets they touch sum to zero.
pub proof fn lemma_balances_sum_to_zero(s: Seq<Transfer>)
    ensures
        map_total(balance_map(s)) == 0,
{
    let m = balance_map(s);
    lemma_touched(s);
    assert(m.dom() =~= touched(s));
    lemma_sum_ext(m.dom(), |w: WalletId| m[w], |w: WalletId| balance_of(w, s));
    lemma_balances_cancel(touched(s), s);
}

/// The one-pass balances agree with the balance of each wallet on its own:
/// a wallet absent from the map has balance 0.
pub proof fn lemma_all_balances_agree(s: Seq<Transfer>, w: WalletId)
    ensures
        balance_of(w, s) == if balance_map(s).contains_key(w) {
            balance_map(s)[w]
        } else {
            0
        },
{
    if !touches(s, w) {
        lemma_untouched_balance(w, s);
    }
}

/// Reversals accumulate: recording a reversal of `original` adds its amount
/// to the total reversed, and any other transfer leaves the total as it is.
pub proof fn lemma_reversals_accumulate(original: TransferId, s: Seq<Transfer>, t: Transfer)
    ensures
        reversed_total(original, s.push(t)) == reversed_total(original, s) + if t.reverses == Some(
            original,
        ) {
            t.amount_cents as int
        } else {
            0
        },
{
    assert(s.push(t).drop_last() =~= s);
}

/// After `s.len()` transfers no balance is larger in size than that many
/// times the largest amount.
pub proof fn lemma_balance_span(w: WalletId, s: Seq<Transfer>)
    ensures
        -(s.len() as int) * cents_span() <= balance_of(w, s) <= (s.len() as int) * cents_span(),
    decreases s.len(),
{
    if s.len() > 0 {
        lemma_balance_span(w, s.drop_last());
    }
}

proof fn lemma_reversed_span(original: TransferId, s: Seq<Transfer>)
    ensures
        -(s.len() as int) * cents_span() <= reversed_total(original, s) <= (s.len() as int)
            * cents_span(),
    decreases s.len(),
{
    if s.len() > 0 {
        lemma_reversed_span(original, s.drop_last());
    }
}

/// A count of transfers that fits in `usize` keeps sums of that many amounts
/// inside `i128`.
pub proof fn lemma_wide_enough(k: int)
    requires
        0 <= k <= usize::MAX,
    ensures
        k * cents_span() < i128::MAX,
{
    assert(k * cents_span() <= (usize::MAX as int) * cents_span()) by (nonlinear_arith)
        requires
            k <= usize::MAX,
            cents_span() > 0,
    ;
}

/// The balance of one wallet: what arrives minus what leaves. The sum is
/// taken in a wider type, so only the balance itself has to fit in `Cents`.
pub fn compute_balance(wallet_id: WalletId, transfers: &[Transfer]) -> (r: Cents)
    requires
        fits_cents(balance_of(wallet_id, transfers@)),
    ensures
        r == balance_of(wallet_id, transfers@),
{
    let ghost s = transfers@;
    let mut balance: i128 = 0;
    let n = transfers.len();
    let mut i: usize = 0;
    while i < n
        invariant
            n == s.len(),
            s == transfers@,
            i <= n,
            balance == balance_of(wallet_id, s.subrange(0, i as int)),
        decreases n - i,
    {
        let t = &transfers[i];
        let ghost prefix = s.subrange(0, i as int);
        let ghost next = s.subrange(0, i + 1);
        assert(next.drop_last() =~= prefix);
        proof {
            lemma_balance_span(wallet_id, next);
            lemma_wide_enough(i + 1);
        }
        let mut change: i128 = 0;
        if t.to_wallet == wallet_id {
            change = change + t.amount_cents as i128;
        }
        if t.from_wallet == wallet_id {
            change = change - t.amount_cents as i128;
        }
        balance = balance + change;
        i = i + 1;
    }
    assert(s.subrange(0, n as int) =~= s);
    balance as i64
}

/// The balances of all touched wallets, as wide integers.
fn wide_balances(transfers: &[Transfer]) -> (r: HashMap<WalletId, i128>)
    ensures
        forall|w: WalletId| #[trigger] r@.contains_key(w) <==> touches(transfers@, w),
        forall|w: WalletId| #[trigger] r@.contains_key(w) ==> r@[w] == balance_of(w, transfers@),
{
    let ghost s = transfers@;
    let mut balances: HashMap<WalletId, i128> = HashMap::new();
    let n = transfers.len();
    let mut i: usize = 0;
    while i < n
        invariant
            n == s.len(),
            s == transfers@,
            i <= n,
            forall|w: WalletId| #[trigger]
                balances@.contains_key(w) <==> touches(s.subrange(0, i as int), w),
            forall|w: WalletId| #[trigger]
                balances@.contains_key(w) ==> balances@[w] == balance_of(
                    w,
                    s.subrange(0, i as int),
                ),
        decreases n - i,
    {
        let t = &transfers[i];
        let ghost prefix = s.subrange(0, i as int);
        let ghost next = s.subrange(0, i + 1);
        assert(next.drop_last() =~= prefix);
        assert(next.last() == s[i as int]);
        proof {
            lemma_balance_span(t.from_wallet, prefix);
            lemma_balance_span(t.to_wallet, prefix);
            lemma_wide_enough(i + 1);
            lemma_touched(next);
            if !touches(prefix, t.from_wallet) {
                lemma_untouched_balance(t.from_wallet, prefix);
            }
            if !touches(prefix, t.to_wallet) {
                lemma_untouched_balance(t.to_wallet, prefix);
            }
        }
        let from_before = match balances.get(&t.from_wallet) {
            Some(b) => *b,
            None => 0,
        };
        balances.insert(t.from_wallet, from_before - t.amount_cents as i128);
        let to_before = match balances.get(&t.to_wallet) {
            Some(b) => *b,
            None => 0,
        };
        balances.insert(t.to_wallet, to_before + t.amount_cents as i128);
        i = i + 1;
        assert forall|w: WalletId| #[trigger]
            balances@.contains_key(w) <==> touches(s.subrange(0, i as int), w) by {
            assert(touched(next).contains(w) == touches(next, w));
            assert(touched(prefix).contains(w) == touches(prefix, w));
        }
        assert forall|w: WalletId| #[trigger] balances@.contains_key(w) implies balances@[w]
            == balance_of(w, s.subrange(0, i as int)) by {
            if w != t.from_wallet && w != t.to_wallet {
                if !touches(prefix, w) {
                    assert(touched(next).contains(w) == touches(next, w));
                    assert(touched(prefix).contains(w) == touches(prefix, w));
                }
            }
        }
    }
    assert(s.subrange(0, n as int) =~= s);
    balances
}

/// The balances of all wallets that the transfers touch. Each equals what
/// `compute_balance` gives for that wallet; the sums are taken in a wider
/// type, so only the balances themselves have to fit in `Cents`.
pub fn compute_all_balances(transfers: &[Transfer]) -> (r: HashMap<WalletId, Cents>)
    requires
        forall|w: WalletId| touches(transfers@, w) ==> fits_cents(#[trigger] balance_of(w, transfers@)),
    ensures
        as_int_map(r@) == balance_map(transfers@),
{
    let ghost s = transfers@;
    let wide = wide_balances(transfers);
    let mut balances: HashMap<WalletId, Cents> = HashMap::new();
    let n = transfers.len();
    let mut i: usize = 0;
    while i < n
        invariant
            n == s.len(),
            s == transfers@,
            i <= n,
            forall|w: WalletId| touches(s, w) ==> fits_cents(#[trigger] balance_of(w, s)),
            forall|w: WalletId| #[trigger] wide@.contains_key(w) <==> touches(s, w),
            forall|w: WalletId| #[trigger] wide@.contains_key(w) ==> wide@[w] == balance_of(w, s),
            forall|w: WalletId| #[trigger]
                balances@.contains_key(w) <==> touches(s.subrange(0, i as int), w),
            forall|w: WalletId| #[trigger]
                balances@.contains_key(w) ==> balances@[w] == balance_of(w, s),
        decreases n - i,
    {
        let t = &transfers[i];
        let ghost prefix = s.subrange(0, i as int);
        let ghost next = s.subrange(0, i + 1);
        assert(next.drop_last() =~= prefix);
        assert(next.last() == s[i as int]);
        proof {
            lemma_touched(next);
            assert(touches(s, t.from_wallet) && touches(s, t.to_wallet)) by {
                assert(s[i as int] == t);
            }
        }
        let from_balance = match wide.get(&t.from_wallet) {
            Some(b) => *b as i64,
            None => 0,
        };
        balances.insert(t.from_wallet, from_balance);
        let to_balance = match wide.get(&t.to_wallet) {
            Some(b) => *b as i64,
            None => 0,
        };
        balances.insert(t.to_wallet, to_balance);
        i = i + 1;
        assert forall|w: WalletId| #[trigger]
            balances@.contains_key(w) <==> touches(s.subrange(0, i as int), w) by {
            assert(touched(next).contains(w) == touches(next, w));
            assert(touched(prefix).contains(w) == touches(prefix, w));
        }
    }
    assert(s.subrange(0, n as int) =~= s);
    assert(as_int_map(balances@) =~= balance_map(s));
    balances
}

/// The total amount already reversed for a transfer: the sum over the
/// transfers that reverse it, taken in a wider type.
pub fn total_reversed_amount(original_id: TransferId, transfers: &[Transfer]) -> (r: Cents)
    requires
        fits_cents(reversed_total(original_id, transfers@)),
    ensures
        r == reversed_total(original_id, transfers@),
{
    let ghost s = transfers@;
    let mut total: i128 = 0;
    let n = transfers.len();
    let mut i: usize = 0;
    while i < n
        invariant
            n == s.len(),
            s == transfers@,
            i <= n,
            total == reversed_total(original_id, s.subrange(0, i as int)),
        decreases n - i,
    {
        let t = &transfers[i];
        let ghost prefix = s.subrange(0, i as int);
        let ghost next = s.subrange(0, i + 1);
        assert(next.drop_last() =~= prefix);
        proof {
            lemma_reversed_span(original_id, next);
            lemma_wide_enough(i + 1);
        }
        match t.reverses {
            Some(id) => {
                if id == original_id {
                    total = total + t.amount_cents as i128;
                }
            },
            None => {},
        }
        i = i + 1;
    }
    assert(s.subrange(0, n as int) =~= s);
    total as i64
}

#[derive(Clone, Copy, Debug, PartialEq, Eq, Structural)]
pub enum ReversalError {
    /// The reversals so far plus the one requested would undo more than the
    /// original transfer moved.
    ExceedsOriginalAmount { original_amount: Cents, already_reversed: Cents, requested: Cents },
    /// A reversal must move a positive amount.
    NonPositiveAmount { requested: Cents },
}

/// Checks a proposed reversal against the reversals already recorded: it is
/// refused exactly when, together, they would exceed the original amount.
pub fn validate_reversal(original: &Transfer, reversal_amount: Cents, all_transfers: &[Transfer]) -> (r:
    Result<(), ReversalError>)
    requires
        fits_cents(reversed_total(original.id, all_transfers@)),
    ensures
        r is Err <==> reversed_total(original.id, all_transfers@) + reversal_amount
            > original.amount_cents,
        r matches Err(e) ==> e == (ReversalError::ExceedsOriginalAmount {
            original_amount: original.amount_cents,
            already_reversed: reversed_total(original.id, all_transfers@) as i64,
            requested: reversal_amount,
        }),
{
    let already_reversed = total_reversed_amount(original.id, all_transfers);
    if (already_reversed as i128) + (reversal_amount as i128) > (original.amount_cents as i128) {
        return Err(
            ReversalError::ExceedsOriginalAmount {
                original_amount: original.amount_cents,
                already_reversed,
                requested: reversal_amount,
            },
        );
    }
    Ok(())
}

/// Half of the width of `Cents`: no single balance is larger in size.
pub open spec fn cents_span() -> int {
    0x8000_0000_0000_0000
}

/// The sum of all balances of a map.
fn total_of_balances(balances: &HashMap<WalletId, Cents>) -> (r: i128)
    ensures
        r == map_total(as_int_map(balances@)),
{
    let ghost m = balances@;
    let n = balances.len();
    let mut total: i128 = 0;
    let ghost mut seen: Set<WalletId> = Set::empty();
    proof {
        lemma_sum_empty(|w: WalletId| m[w] as int);
    }
    for (k, v) in it: balances.iter()
        invariant
            m == balances@,
            it.seq() == spec_hash_map_iter(balances).remaining(),
            it.seq().no_duplicates(),
            it.seq().len() == n,
            seen.finite(),
            seen.len() == it.index(),
            forall|w: WalletId| #[trigger]
                seen.contains(w) <==> exists|j: int| 0 <= j < it.index() && *it.seq()[j].0 == w,
            seen.subset_of(m.dom()),
            total == sum_over(seen, |w: WalletId| m[w] as int),
            -(seen.len() as int) * cents_span() <= total <= (seen.len() as int) * cents_span(),
    {
        let ghost idx = it.index();
        let ghost q = it.seq();
        assert(m.contains_key(*q[idx].0) && m[*q[idx].0] == *q[idx].1);
        assert(!seen.contains(*k)) by {
            if seen.contains(*k) {
                let j = choose|j: int| 0 <= j < idx && *q[j].0 == *k;
                assert(m.contains_key(*q[j].0) && m[*q[j].0] == *q[j].1);
                assert(q[j] == q[idx]);
            }
        }
        proof {
            lemma_sum_insert(seen, *k, |w: WalletId| m[w] as int);
            seen = seen.insert(*k);
        }
        assert(-((idx + 1) * cents_span()) <= total + *v <= (idx + 1) * cents_span());
        assert((idx + 1) * cents_span() <= (usize::MAX as int) * cents_span()) by (nonlinear_arith)
            requires
                idx + 1 <= usize::MAX,
                cents_span() > 0,
        ;
        total = total + (*v as i128);
        assert forall|w: WalletId| #[trigger] seen.contains(w) <==> exists|j: int|
            0 <= j < idx + 1 && *q[j].0 == w by {
            if w == *k {
                assert(*q[idx].0 == w);
            }
        }
    }
    proof {
        let q = spec_hash_map_iter(balances).remaining();
        assert(seen =~= m.dom()) by {
            assert forall|w: WalletId| m.contains_key(w) implies seen.contains(w) by {
                assert(q.contains((&w, &m[w])));
                let j = choose|j: int| 0 <= j < q.len() && q[j] == (&w, &m[w]);
                assert(*q[j].0 == w);
            }
        }
        assert(as_int_map(m).dom() =~= m.dom());
        lemma_sum_ext(m.dom(), |w: WalletId| as_int_map(m)[w], |w: WalletId| m[w] as int);
    }
    total
}

/// The balance that a map gives a wallet: 0 where it has none.
pub open spec fn balance_in(m: Map<WalletId, Cents>, w: WalletId) -> int {
    if m.contains_key(w) {
        m[w] as int
    } else {
        0
    }
}

pub open spec fn has_type(ws: Seq<Wallet>, t: WalletType) -> bool {
    exists|i: int| 0 <= i < ws.len() && ws[i].wallet_type == t
}

/// The sum of the balances of the wallets of type `t`.
pub open spec fn type_total(ws: Seq<Wallet>, m: Map<WalletId, Cents>, t: WalletType) -> int
    decreases ws.len(),
{
    if ws.len() == 0 {
        0
    } else {
        type_total(ws.drop_last(), m, t) + if ws.last().wallet_type == t {
            balance_in(m, ws.last().id)
        } else {
            0
        }
    }
}

/// The entry for type `t` in the balances by type: present iff some wallet
/// has that type.
pub open spec fn type_entry(ws: Seq<Wallet>, m: Map<WalletId, Cents>, t: WalletType) -> Seq<
    (WalletType, int),
> {
    if has_type(ws, t) {
        seq![(t, type_total(ws, m, t))]
    } else {
        seq![]
    }
}

/// The balances summed by wallet type, in the order asset, liability,
/// income, expense, equity, for the types that occur.
pub open spec fn type_balances(ws: Seq<Wallet>, m: Map<WalletId, Cents>) -> Seq<(WalletType, int)> {
    type_entry(ws, m, WalletType::Asset) + type_entry(ws, m, WalletType::Liability) + type_entry(
        ws,
        m,
        WalletType::Income,
    ) + type_entry(ws, m, WalletType::Expense) + type_entry(ws, m, WalletType::Equity)
}

pub open spec fn int_entries(v: Seq<(WalletType, Cents)>) -> Seq<(WalletType, int)> {
    v.map_values(|e: (WalletType, Cents)| (e.0, e.1 as int))
}

#[derive(Clone, Copy, Debug, PartialEq, Eq, Structural)]
pub enum IntegrityIssue {
    SequenceGaps,
    /// Transfers that name a wallet that does not exist.
    InvalidWalletReferences(i64),
    /// Transfers whose amount is not positive.
    InvalidAmounts(i64),
    /// The balances do not sum to zero; the sum is given.
    UnbalancedLedger(Cents),
}

/// The issues a report lists, in this order.
pub open spec fn expected_issues(
    has_sequence_gaps: bool,
    invalid_wallet_refs: i64,
    invalid_amounts: i64,
    total: Cents,
) -> Seq<IntegrityIssue> {
    (if has_sequence_gaps {
        seq![IntegrityIssue::SequenceGaps]
    } else {
        seq![]
    }) + (if invalid_wallet_refs > 0 {
        seq![IntegrityIssue::InvalidWalletReferences(invalid_wallet_refs)]
    } else {
        seq![]
    }) + (if invalid_amounts > 0 {
        seq![IntegrityIssue::InvalidAmounts(invalid_amounts)]
    } else {
        seq![]
    }) + (if total != 0 {
        seq![IntegrityIssue::UnbalancedLedger(total)]
    } else {
        seq![]
    })
}

/// Structural figures that the store counts for the integrity report.
#[derive(Clone, Copy, Debug, PartialEq, Eq, Structural)]
pub struct IntegrityStats {
    pub wallet_count: i64,
    pub transfer_count: i64,
    /// Whether the sequence numbers skip a value.
    pub has_sequence_gaps: bool,
    /// Transfers that name a wallet that does not exist.
    pub invalid_wallet_refs: i64,
    /// Transfers whose amount is not positive.
    pub invalid_amounts: i64,
}

/// Read-only diagnostics of a ledger.
#[derive(Clone, Debug)]
pub struct IntegrityReport {
    pub wallet_count: i64,
    pub transfer_count: i64,
    /// Summed balances per wallet type, for the types that occur.
    pub balance_by_type: Vec<(WalletType, Cents)>,
    /// The sum of all balances: 0 in a healthy ledger.
    pub total_balance: Cents,
    pub is_balanced: bool,
    pub issues: Vec<IntegrityIssue>,
}

impl IntegrityReport {
    /// Healthy: balanced and free of issues.
    pub fn is_healthy(&self) -> (r: bool)
        ensures
            r == (self.is_balanced && self.issues@.len() == 0),
    {
        self.is_balanced && self.issues.is_empty()
    }
}

/// Appends the entry of type `t` to the balances by type.
fn push_type_total(
    wallets: &[Wallet],
    balances: &HashMap<WalletId, Cents>,
    t: WalletType,
    out: &mut Vec<(WalletType, Cents)>,
)
    requires
        i64::MIN <= type_total(wallets@, balances@, t) <= i64::MAX,
    ensures
        int_entries(final(out)@) == int_entries(old(out)@) + type_entry(wallets@, balances@, t),
{
    let ghost ws = wallets@;
    let ghost m = balances@;
    let n = wallets.len();
    let mut total: i128 = 0;
    let mut found = false;
    let mut i: usize = 0;
    while i < n
        invariant
            n == ws.len(),
            ws == wallets@,
            m == balances@,
            i <= n,
            total == type_total(ws.subrange(0, i as int), m, t),
            found == has_type(ws.subrange(0, i as int), t),
            -(i as int) * cents_span() <= total <= (i as int) * cents_span(),
        decreases n - i,
    {
        let w = &wallets[i];
        let ghost prefix = ws.subrange(0, i as int);
        let ghost next = ws.subrange(0, i + 1);
        assert(next.drop_last() =~= prefix);
        assert(next.last() == ws[i as int]);
        assert((i + 1) * cents_span() <= (usize::MAX as int) * cents_span()) by (nonlinear_arith)
            requires
                i + 1 <= usize::MAX,
                cents_span() > 0,
        ;
        if w.wallet_type == t {
            let b: i64 = match balances.get(&w.id) {
                Some(b) => *b,
                None => 0,
            };
            total = total + b as i128;
            found = true;
        }
        assert(found == has_type(next, t)) by {
            if has_type(prefix, t) {
                let j = choose|j: int| 0 <= j < prefix.len() && prefix[j].wallet_type == t;
                assert(next[j] == prefix[j]);
            }
            if has_type(next, t) && !has_type(prefix, t) {
                let j = choose|j: int| 0 <= j < next.len() && next[j].wallet_type == t;
                if j < i {
                    assert(prefix[j] == next[j]);
                }
            }
        }
        i = i + 1;
    }
    assert(ws.subrange(0, n as int) =~= ws);
    let ghost before = out@;
    if found {
        out.push((t, total as i64));
    }
    assert(int_entries(out@) =~= int_entries(before) + type_entry(ws, m, t));
}

/// Builds the integrity report from the wallets, their balances and the
/// structural figures counted by the store.
pub fn build_integrity_report(
    wallets: &[Wallet],
    balances: &HashMap<WalletId, Cents>,
    wallet_count: i64,
    transfer_count: i64,
    has_sequence_gaps: bool,
    invalid_wallet_refs: i64,
    invalid_amounts: i64,
) -> (r: IntegrityReport)
    requires
        i64::MIN <= map_total(as_int_map(balances@)) <= i64::MAX,
        forall|t: WalletType|
            i64::MIN <= #[trigger] type_total(wallets@, balances@, t) <= i64::MAX,
    ensures
        r.wallet_count == wallet_count,
        r.transfer_count == transfer_count,
        int_entries(r.balance_by_type@) == type_balances(wallets@, balances@),
        r.total_balance == map_total(as_int_map(balances@)),
        r.is_balanced == (r.total_balance == 0),
        r.issues@ == expected_issues(
            has_sequence_gaps,
            invalid_wallet_refs,
            invalid_amounts,
            r.total_balance,
        ),
{
    let mut balance_by_type: Vec<(WalletType, Cents)> = Vec::new();
    push_type_total(wallets, balances, WalletType::Asset, &mut balance_by_type);
    push_type_total(wallets, balances, WalletType::Liability, &mut balance_by_type);
    push_type_total(wallets, balances, WalletType::Income, &mut balance_by_type);
    push_type_total(wallets, balances, WalletType::Expense, &mut balance_by_type);
    push_type_total(wallets, balances, WalletType::Equity, &mut balance_by_type);
    assert(int_entries(Seq::<(WalletType, Cents)>::empty()) =~= Seq::<(WalletType, int)>::empty());
    assert(int_entries(balance_by_type@) =~= type_balances(wallets@, balances@));
    let total_balance = total_of_balances(balances) as i64;
    let is_balanced = total_balance == 0;
    let mut issues: Vec<IntegrityIssue> = Vec::new();
    if has_sequence_gaps {
        issues.push(IntegrityIssue::SequenceGaps);
    }
    if invalid_wallet_refs > 0 {
        issues.push(IntegrityIssue::InvalidWalletReferences(invalid_wallet_refs));
    }
    if invalid_amounts > 0 {
        issues.push(IntegrityIssue::InvalidAmounts(invalid_amounts));
    }
    if !is_balanced {
        issues.push(IntegrityIssue::UnbalancedLedger(total_balance));
    }
    assert(issues@ =~= expected_issues(
        has_sequence_gaps,
        invalid_wallet_refs,
        invalid_amounts,
        total_balance,
    ));
    IntegrityReport {
        wallet_count,
        transfer_count,
        balance_by_type,
        total_balance,
        is_balanced,
        issues,
    }
}

} // verus!

//! Selecting transfers by wallet, category and date.
use crate::calendar::Timestamp;
use crate::ids::WalletId;
use crate::text::same_text;
use crate::transfer::Transfer;
use vstd::prelude::*;

verus! {

/// Criteria for listing transfers; each one that is set must hold.
#[derive(Clone, Debug)]
pub struct TransferQuery {
    /// The transfer leaves from or arrives at this wallet.
    pub wallet: Option<WalletId>,
    /// The transfer carries this category.
    pub category: Option<String>,
    /// The transfer is dated at or after this instant.
    pub from_date: Option<Timestamp>,
    /// The transfer is dated at or before this instant.
    pub to_date: Option<Timestamp>,
    /// At most this many transfers are listed.
    pub limit: Option<usize>,
}

impl TransferQuery {
    pub open spec fn dates_wf(self) -> bool {
        &&& (self.from_date matches Some(d) ==> d.wf())
        &&& (self.to_date matches Some(d) ==> d.wf())
    }

    /// Whether a transfer meets every criterion that is set (the limit aside).
    pub open spec fn selects(self, t: Transfer) -> bool {
        &&& (self.wallet matches Some(w) ==> t.from_wallet == w || t.to_wallet == w)
        &&& (self.category matches Some(c) ==> t.category matches Some(tc) && tc@ == c@)
        &&& (self.from_date matches Some(d) ==> d.rank() <= t.timestamp.rank())
        &&& (self.to_date matches Some(d) ==> t.timestamp.rank() <= d.rank())
    }

    fn accepts(&self, t: &Transfer) -> (r: bool)
        requires
            self.dates_wf(),
            t.timestamp.wf(),
        ensures
            r == self.selects(*t),
    {
        match self.wallet {
            Some(w) => {
                if t.from_wallet != w && t.to_wallet != w {
                    return false;
                }
            },
            None => {},
        }
        match &self.category {
            Some(c) => match &t.category {
                Some(tc) => {
                    if !same_text(tc.as_str(), c.as_str()) {
                        return false;
                    }
                },
                None => {
                    return false;
                },
            },
            None => {},
        }
        match &self.from_date {
            Some(d) => {
                if t.timestamp.is_before(d) {
                    return false;
                }
            },
            None => {},
        }
        match &self.to_date {
            Some(d) => {
                if d.is_before(&t.timestamp) {
                    return false;
                }
            },
            None => {},
        }
        true
    }
}

/// The positions, in order, of the transfers among `s` that the query
/// selects (the limit aside).
pub open spec fn selected_positions(s: Seq<Transfer>, q: TransferQuery) -> Seq<int>
    decreases s.len(),
{
    if s.len() == 0 {
        seq![]
    } else {
        let before = selected_positions(s.drop_last(), q);
        if q.selects(s.last()) {
            before.push(s.len() - 1)
        } else {
            before
        }
    }
}

/// The positions of the transfers to list: those selected, in the order
/// given, cut to the limit.
pub open spec fn listed_positions(s: Seq<Transfer>, q: TransferQuery) -> Seq<int> {
    let all = selected_positions(s, q);
    match q.limit {
        Some(n) => if n < all.len() {
            all.take(n as int)
        } else {
            all
        },
        None => all,
    }
}

/// The positions within `transfers` (kept in sequence order) of the
/// transfers that the query lists.
pub fn list_transfers_filtered(transfers: &[Transfer], query: &TransferQuery) -> (r: Vec<usize>)
    requires
        query.dates_wf(),
        forall|i: int| 0 <= i < transfers@.len() ==> (#[trigger] transfers@[i]).timestamp.wf(),
    ensures
        r@.map_values(|p: usize| p as int) == listed_positions(transfers@, *query),
{
    let ghost s = transfers@;
    let mut out: Vec<usize> = Vec::new();
    let n = transfers.len();
    let mut i: usize = 0;
    while i < n
        invariant
            n == s.len(),
            s == transfers@,
            i <= n,
            query.dates_wf(),
            forall|j: int| 0 <= j < s.len() ==> (#[trigger] s[j]).timestamp.wf(),
            out@.map_values(|p: usize| p as int) == selected_positions(s.subrange(0, i as int), *query),
            query.limit matches Some(l) ==> out@.len() <= l,
        ensures
            i <= n,
            out@.map_values(|p: usize| p as int) == selected_positions(s.subrange(0, i as int), *query),
            query.limit matches Some(l) ==> out@.len() <= l,
            i == n || (query.limit matches Some(l) && out@.len() == l),
        decreases n - i,
    {
        let ghost prefix = s.subrange(0, i as int);
        let ghost next = s.subrange(0, i + 1);
        assert(next.drop_last() =~= prefix);
        assert(next.last() == s[i as int]);
        match query.limit {
            Some(l) => {
                if out.len() >= l {
                    break;
                }
            },
            None => {},
        }
        if query.accepts(&transfers[i]) {
            out.push(i);
        }
        assert(out@.map_values(|p: usize| p as int) =~= selected_positions(next, *query));
        i = i + 1;
    }
    proof {
        lemma_selected_prefix(s, *query, i as int);
        let all = selected_positions(s, *query);
        let got = selected_positions(s.subrange(0, i as int), *query);
        assert(got.len() == out@.len());
        if i < n {
            assert(all.take(got.len() as int) == got);
        } else {
            assert(s.subrange(0, n as int) =~= s);
        }
    }
    out
}

/// The positions selected among a prefix start the positions selected among
/// the whole.
proof fn lemma_selected_prefix(s: Seq<Transfer>, q: TransferQuery, k: int)
    requires
        0 <= k <= s.len(),
    ensures
        selected_positions(s.subrange(0, k), q).len() <= selected_positions(s, q).len(),
        selected_positions(s, q).take(selected_positions(s.subrange(0, k), q).len() as int)
            == selected_positions(s.subrange(0, k), q),
    decreases s.len(),
{
    if k == s.len() {
        assert(s.subrange(0, k) =~= s);
        assert(selected_positions(s, q).take(selected_positions(s, q).len() as int) =~= selected_positions(s, q));
    } else {
        let p = s.drop_last();
        assert(p.subrange(0, k) =~= s.subrange(0, k));
        lemma_selected_prefix(p, q, k);
        let small = selected_positions(s.subrange(0, k), q);
        let mid = selected_positions(p, q);
        let all = selected_positions(s, q);
        assert(all.take(mid.len() as int) =~= mid);
        assert(all.take(small.len() as int) =~= mid.take(small.len() as int));
    }
}

} // verus!

//! The persisted-zap store and the query service over it.
//!
//! The store is an append-only ledger of persisted zaps, held newest first.
//! Its invariant carries the two guarantees the pipeline rests on: records
//! stay ordered by their timestamp descending, and for a given identity and
//! receipt identifier at most one record exists, whatever duplicates the
//! relay layer delivers.
use vstd::prelude::*;

verus! {

/// One durable record: a tracked identity was zapped.
#[derive(Clone, Debug)]
pub struct Zap {
    /// Generated unique record identifier, 32 hex characters.
    pub id: String,
    /// The tracked identity the record is attributed to, as its bech32 key.
    pub npub: String,
    /// The originating receipt's identifier; with `npub` the dedup key.
    pub receipt_id: String,
    /// Resolved amount in millisatoshis, saturated to the column width.
    pub amount: u32,
    /// The receipt's creation time, UNIX seconds.
    pub zapped_at: u64,
}

pub ghost struct ZapView {
    pub id: Seq<char>,
    pub npub: Seq<char>,
    pub receipt_id: Seq<char>,
    pub amount: u32,
    pub zapped_at: u64,
}

impl View for Zap {
    type V = ZapView;

    open spec fn view(&self) -> ZapView {
        ZapView {
            id: self.id@,
            npub: self.npub@,
            receipt_id: self.receipt_id@,
            amount: self.amount,
            zapped_at: self.zapped_at,
        }
    }
}

impl Zap {
    /// The record's amount in whole satoshis, for display; the stored
    /// amount is in millisatoshis.
    pub fn amount_sats(&self) -> (r: u32)
        ensures
            r == self.amount / 1000,
    {
        self.amount / 1000
    }
}

/// Whether some record carries the dedup key (`npub`, `receipt_id`).
pub open spec fn tracks(s: Seq<ZapView>, npub: Seq<char>, receipt_id: Seq<char>) -> bool {
    exists|i: int|
        0 <= i < s.len() && (#[trigger] s[i]).npub == npub && s[i].receipt_id == receipt_id
}

/// Records are ordered newest first.
pub open spec fn sorted_desc(s: Seq<ZapView>) -> bool {
    forall|i: int, j: int|
        0 <= i < j < s.len() ==> (#[trigger] s[i]).zapped_at >= (#[trigger] s[j]).zapped_at
}

/// No two records share a dedup key.
pub open spec fn no_duplicate_keys(s: Seq<ZapView>) -> bool {
    forall|i: int, j: int|
        0 <= i < j < s.len() ==> !((#[trigger] s[i]).npub == (#[trigger] s[j]).npub
            && s[i].receipt_id == s[j].receipt_id)
}

/// The records attributed to one identity, newest first.
pub open spec fn spec_zaps_for(s: Seq<ZapView>, npub: Seq<char>) -> Seq<ZapView> {
    s.filter(|z: ZapView| z.npub == npub)
}

/// The first `n` elements, or all of them where fewer exist.
pub open spec fn take_at_most(s: Seq<ZapView>, n: int) -> Seq<ZapView> {
    if n <= s.len() {
        s.take(n)
    } else {
        s
    }
}

/// Relies on uuid::Uuid::new_v4 for a fresh random identifier and on its
/// simple formatter, which renders it as exactly 32 hex characters.
#[verifier::external_body]
fn new_zap_id() -> (r: String)
    ensures
        r@.len() == 32,
{
    uuid::Uuid::new_v4().simple().to_string()
}

/// The record `post[i]` is new and `post` is otherwise exactly `pre`.
pub open spec fn inserted_at(pre: Seq<ZapView>, post: Seq<ZapView>, i: int) -> bool {
    0 <= i < post.len() && post.remove(i) == pre
}

/// The shape of a freshly persisted record: attributed to `npub`, keyed by
/// `receipt_id`, with the resolved amount, the resolved time, and a
/// generated 32-character identifier.
pub open spec fn new_zap_ok(
    z: ZapView,
    npub: Seq<char>,
    receipt_id: Seq<char>,
    zapped_at: u64,
    amount: u32,
) -> bool {
    z.npub == npub && z.receipt_id == receipt_id && z.zapped_at == zapped_at && z.amount == amount
        && z.id.len() == 32
}

/// The append-only ledger of persisted zaps, newest first.
#[derive(Debug)]
pub struct ZapStore {
    zaps: Vec<Zap>,
}

impl View for ZapStore {
    type V = Seq<ZapView>;

    closed spec fn view(&self) -> Seq<ZapView> {
        self.zaps@.map_values(|z: Zap| z@)
    }
}

impl ZapStore {
    pub open spec fn wf(&self) -> bool {
        sorted_desc(self@) && no_duplicate_keys(self@)
    }

    /// An empty store.
    pub fn new() -> (r: ZapStore)
        ensures
            r@ == Seq::<ZapView>::empty(),
            r.wf(),
    {
        let r = ZapStore { zaps: Vec::new() };
        proof {
            assert(r@ =~= Seq::<ZapView>::empty());
        }
        r
    }

    /// Whether a record with the dedup key (`npub`, `receipt_id`) exists.
    pub fn zap_already_tracked(&self, npub: &str, receipt_id: &str) -> (r: bool)
        ensures
            r == tracks(self@, npub@, receipt_id@),
    {
        let npub_key = String::from_str(npub);
        let receipt_key = String::from_str(receipt_id);
        let mut i: usize = 0;
        while i < self.zaps.len()
            invariant
                npub_key@ == npub@,
                receipt_key@ == receipt_id@,
                0 <= i <= self.zaps.len(),
                forall|j: int|
                    0 <= j < i ==> !((#[trigger] self@[j]).npub == npub@ && self@[j].receipt_id
                        == receipt_id@),
            decreases self.zaps.len() - i,
        {
            if self.zaps[i].npub == npub_key && self.zaps[i].receipt_id == receipt_key {
                assert(self@[i as int].npub == npub@ && self@[i as int].receipt_id == receipt_id@);
                return true;
            }
            i += 1;
        }
        false
    }

    /// Persist one record under a freshly generated identifier, unless its
    /// dedup key is already present; the store is left unchanged and `false`
    /// comes back on a duplicate. Idempotent under re-delivery: after a
    /// successful insert, the same key is a no-op.
    #[verifier::rlimit(50)]
    pub fn add_zap(&mut self, npub: &str, receipt_id: &str, zapped_at: u64, amount: u32) -> (added:
        bool)
        requires
            old(self).wf(),
        ensures
            final(self).wf(),
            added == !tracks(old(self)@, npub@, receipt_id@),
            tracks(final(self)@, npub@, receipt_id@),
            !added ==> final(self)@ == old(self)@,
            added ==> final(self)@.len() == old(self)@.len() + 1,
            added ==> exists|i: int|
                #![trigger final(self)@[i]]
                inserted_at(old(self)@, final(self)@, i) && new_zap_ok(
                    final(self)@[i],
                    npub@,
                    receipt_id@,
                    zapped_at,
                    amount,
                ),
    {
        if self.zap_already_tracked(npub, receipt_id) {
            return false;
        }
        let z = Zap {
            id: new_zap_id(),
            npub: String::from_str(npub),
            receipt_id: String::from_str(receipt_id),
            amount,
            zapped_at,
        };
        let ghost zv = z@;
        let ghost pre = self@;
        let mut i: usize = 0;
        while i < self.zaps.len() && self.zaps[i].zapped_at > zapped_at
            invariant
                0 <= i <= self.zaps.len(),
                self == old(self),
                forall|j: int| 0 <= j < i ==> (#[trigger] self@[j]).zapped_at > zapped_at,
            decreases self.zaps.len() - i,
        {
            i += 1;
        }
        let ghost pos = i as int;
        proof {
            assert(pos == pre.len() || pre[pos].zapped_at <= zapped_at);
            assert forall|k: int| pos <= k < pre.len() implies (#[trigger] pre[k]).zapped_at
                <= zapped_at by {
                if k > pos {
                    assert(pre[pos].zapped_at >= pre[k].zapped_at);
                }
            }
        }
        self.zaps.insert(i, z);
        proof {
            assert(self@ =~= pre.insert(pos, zv));
            pre.insert_ensures(pos, zv);
            assert(self@.remove(pos) =~= pre);
            assert forall|p: int, q: int| 0 <= p < q < self@.len() implies (
            #[trigger] self@[p]).zapped_at >= (#[trigger] self@[q]).zapped_at by {
                if p < pos && q == pos {
                    assert(self@[p] == pre[p]);
                } else if p == pos && q > pos {
                    assert(self@[q] == pre[q - 1]);
                    assert(pre[q - 1].zapped_at <= zapped_at);
                } else if q < pos {
                    assert(self@[p] == pre[p] && self@[q] == pre[q]);
                } else if p > pos {
                    assert(self@[p] == pre[p - 1] && self@[q] == pre[q - 1]);
                } else if p < pos && q > pos {
                    assert(self@[p] == pre[p] && self@[q] == pre[q - 1]);
                }
            }
            assert forall|p: int, q: int| 0 <= p < q < self@.len() implies !((
            #[trigger] self@[p]).npub == (#[trigger] self@[q]).npub && self@[p].receipt_id
                == self@[q].receipt_id) by {
                if p != pos && q != pos {
                    let p0 = if p < pos {
                        p
                    } else {
                        p - 1
                    };
                    let q0 = if q < pos {
                        q
                    } else {
                        q - 1
                    };
                    assert(self@[p] == pre[p0] && self@[q] == pre[q0]);
                } else if p == pos {
                    assert(self@[q] == pre[q - 1]);
                    assert(!tracks(pre, npub@, receipt_id@));
                    assert(!(pre[q - 1].npub == npub@ && pre[q - 1].receipt_id == receipt_id@));
                } else {
                    assert(self@[p] == pre[p]);
                    assert(!(pre[p].npub == npub@ && pre[p].receipt_id == receipt_id@));
                }
            }
            assert(self@[pos].npub == npub@ && self@[pos].receipt_id == receipt_id@);
        }
        true
    }

    /// The latest `n` records for an identity, newest first; fewer where
    /// fewer exist, all of them where `n` exceeds the record count.
    pub fn get_most_recent_zaps(&self, npub: &str, n: u32) -> (r: Vec<Zap>)
        requires
            self.wf(),
        ensures
            r@.map_values(|z: Zap| z@) == take_at_most(spec_zaps_for(self@, npub@), n as int),
            sorted_desc(r@.map_values(|z: Zap| z@)),
    {
        let npub_key = String::from_str(npub);
        let mut out: Vec<Zap> = Vec::new();
        let mut i: usize = 0;
        proof {
            assert(self@.take(0) =~= Seq::<ZapView>::empty());
            reveal(Seq::filter);
            assert(out@.map_values(|z: Zap| z@) =~= take_at_most(
                spec_zaps_for(self@.take(0), npub@),
                n as int,
            ));
        }
        while i < self.zaps.len()
            invariant
                0 <= i <= self.zaps.len(),
                npub_key@ == npub@,
                out@.len() <= n,
                out@.map_values(|z: Zap| z@) == take_at_most(
                    spec_zaps_for(self@.take(i as int), npub@),
                    n as int,
                ),
                out@.len() < n ==> out@.map_values(|z: Zap| z@) == spec_zaps_for(
                    self@.take(i as int),
                    npub@,
                ),
            decreases self.zaps.len() - i,
        {
            let ghost prefix = self@.take(i as int);
            let ghost prev = out@.map_values(|z: Zap| z@);
            proof {
                assert(self@.take(i + 1).drop_last() =~= prefix);
                assert(self@.take(i + 1).last() == self@[i as int]);
                reveal(Seq::filter);
            }
            if (out.len() as u32) < n && self.zaps[i].npub == npub_key {
                let zr = &self.zaps[i];
                let z = Zap {
                    id: zr.id.clone(),
                    npub: zr.npub.clone(),
                    receipt_id: zr.receipt_id.clone(),
                    amount: zr.amount,
                    zapped_at: zr.zapped_at,
                };
                assert(z@ == self@[i as int]);
                out.push(z);
                proof {
                    assert(out@.map_values(|z: Zap| z@) =~= prev.push(self@[i as int]));
                    assert(spec_zaps_for(self@.take(i + 1), npub@) == spec_zaps_for(
                        prefix,
                        npub@,
                    ).push(self@[i as int]));
                }
            } else {
                proof {
                    if self@[i as int].npub == npub@ {
                        assert(spec_zaps_for(self@.take(i + 1), npub@) == spec_zaps_for(
                            prefix,
                            npub@,
                        ).push(self@[i as int]));
                        assert(out@.len() == n);
                        assert(take_at_most(spec_zaps_for(self@.take(i + 1), npub@), n as int)
                            =~= take_at_most(spec_zaps_for(prefix, npub@), n as int));
                    } else {
                        assert(spec_zaps_for(self@.take(i + 1), npub@) == spec_zaps_for(
                            prefix,
                            npub@,
                        ));
                    }
                }
            }
            i += 1;
        }
        proof {
            assert(self@.take(self.zaps.len() as int) =~= self@);
            lemma_zaps_for_sorted_desc(self@, npub@);
            let filtered = spec_zaps_for(self@, npub@);
            let rv = out@.map_values(|z: Zap| z@);
            assert forall|p: int, q: int| 0 <= p < q < rv.len() implies (
            #[trigger] rv[p]).zapped_at >= (#[trigger] rv[q]).zapped_at by {
                assert(rv[p] == filtered[p] && rv[q] == filtered[q]);
            }
        }
        out
    }

    /// The single latest record for an identity, if any.
    pub fn get_most_recent_zap(&self, npub: &str) -> (r: Option<Zap>)
        requires
            self.wf(),
        ensures
            match r {
                Some(z) => spec_zaps_for(self@, npub@).len() > 0 && z@ == spec_zaps_for(
                    self@,
                    npub@,
                )[0],
                None => spec_zaps_for(self@, npub@).len() == 0,
            },
    {
        let mut zaps = self.get_most_recent_zaps(npub, 1);
        let ghost filtered = spec_zaps_for(self@, npub@);
        let ghost rv = zaps@.map_values(|z: Zap| z@);
        if zaps.len() == 0 {
            proof {
                assert(rv.len() == 0);
                if filtered.len() > 0 {
                    assert(take_at_most(filtered, 1).len() == 1);
                }
            }
            None
        } else {
            proof {
                assert(rv.len() == zaps@.len());
                assert(filtered.len() > 0);
                assert(rv[0] == filtered.take(1)[0]);
                assert(rv[0] == filtered[0]);
            }
            let z = zaps.remove(0);
            assert(z@ == rv[0]);
            Some(z)
        }
    }

    /// Whether the identity's latest record is at or after `boundary`:
    /// a record timestamped exactly at the boundary counts as fresh.
    pub fn has_fresh_zap(&self, npub: &str, boundary: u64) -> (r: bool)
        requires
            self.wf(),
        ensures
            r == (spec_zaps_for(self@, npub@).len() > 0 && spec_zaps_for(self@, npub@)[0].zapped_at
                >= boundary),
    {
        match self.get_most_recent_zap(npub) {
            Some(z) => z.zapped_at >= boundary,
            None => false,
        }
    }
}

/// A store without duplicate keys holds at most one record per dedup key:
/// two records sharing an identity and a receipt identifier are one record.
pub proof fn lemma_at_most_one_record(s: Seq<ZapView>, i: int, j: int)
    requires
        no_duplicate_keys(s),
        0 <= i < s.len(),
        0 <= j < s.len(),
        s[i].npub == s[j].npub,
        s[i].receipt_id == s[j].receipt_id,
    ensures
        i == j,
{
}

/// The freshness boundary at time `now`: the start of the current UTC day,
/// less one day. A record is fresh exactly when its time is at or after
/// this boundary.
pub open spec fn spec_freshness_boundary(now: u64) -> u64 {
    let day_start = (now - (now % 86400)) as u64;
    if day_start >= 86400 {
        (day_start - 86400) as u64
    } else {
        0
    }
}

/// The boundary against which a record's freshness is judged at time
/// `now`: the start of the current UTC day, less one day.
pub fn freshness_boundary(now: u64) -> (r: u64)
    ensures
        r == spec_freshness_boundary(now),
{
    let day_start = now - (now % 86400);
    if day_start >= 86400 {
        day_start - 86400
    } else {
        0
    }
}

/// Every record kept for an identity appears in the store it came from.
proof fn lemma_zaps_for_in_source(s: Seq<ZapView>, npub: Seq<char>)
    ensures
        forall|k: int|
            0 <= k < spec_zaps_for(s, npub).len() ==> s.contains(
                #[trigger] spec_zaps_for(s, npub)[k],
            ),
    decreases s.len(),
{
    reveal(Seq::filter);
    if s.len() > 0 {
        let t = s.drop_last();
        lemma_zaps_for_in_source(t, npub);
        assert forall|k: int| 0 <= k < spec_zaps_for(s, npub).len() implies s.contains(
            #[trigger] spec_zaps_for(s, npub)[k],
        ) by {
            if k < spec_zaps_for(t, npub).len() {
                assert(t.contains(spec_zaps_for(t, npub)[k]));
                let j = choose|j: int| 0 <= j < t.len() && t[j] == spec_zaps_for(t, npub)[k];
                assert(s[j] == spec_zaps_for(s, npub)[k]);
            } else {
                assert(spec_zaps_for(s, npub)[k] == s.last());
            }
        }
    }
}

/// The records kept for an identity stay ordered newest first.
proof fn lemma_zaps_for_sorted_desc(s: Seq<ZapView>, npub: Seq<char>)
    requires
        sorted_desc(s),
    ensures
        sorted_desc(spec_zaps_for(s, npub)),
    decreases s.len(),
{
    reveal(Seq::filter);
    if s.len() > 0 {
        let t = s.drop_last();
        assert(sorted_desc(t)) by {
            assert forall|p: int, q: int| 0 <= p < q < t.len() implies (
            #[trigger] t[p]).zapped_at >= (#[trigger] t[q]).zapped_at by {
                assert(t[p] == s[p] && t[q] == s[q]);
            }
        }
        lemma_zaps_for_sorted_desc(t, npub);
        if s.last().npub == npub {
            lemma_zaps_for_in_source(t, npub);
            let f = spec_zaps_for(s, npub);
            assert(f == spec_zaps_for(t, npub).push(s.last()));
            assert forall|p: int, q: int| 0 <= p < q < f.len() implies (
            #[trigger] f[p]).zapped_at >= (#[trigger] f[q]).zapped_at by {
                if q < f.len() - 1 {
                    assert(f[p] == spec_zaps_for(t, npub)[p] && f[q] == spec_zaps_for(t, npub)[q]);
                } else {
                    assert(f[q] == s.last());
                    assert(f[p] == spec_zaps_for(t, npub)[p]);
                    assert(t.contains(spec_zaps_for(t, npub)[p]));
                    let j = choose|j: int| 0 <= j < t.len() && t[j] == spec_zaps_for(t, npub)[p];
                    assert(s[j].zapped_at >= s[s.len() - 1].zapped_at);
                }
            }
        } else {
            assert(spec_zaps_for(s, npub) == spec_zaps_for(t, npub));
        }
    }
}

} // verus!

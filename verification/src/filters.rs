//! The event filter builder.
//!
//! The subscription asks for receipt-kind events twice over: once by kind
//! and age alone — a coarse, defensive net, since relay-side tag indexing
//! is not consistent across implementations — and once narrowed to events
//! tagging one of the tracked identities, the precise net. Receipts tag the
//! original recipient, not the payer, so the tag filter alone would be the
//! efficient path where the relay honours it.
use vstd::prelude::*;

use crate::events::ZAP_RECEIPT_KIND;
use crate::identity::{TrackedIdentity, TrackedIdentityView, identities_view};

verus! {

/// One subscription filter: a kind, a lower creation-time bound, and an
/// optional set of tagged identity keys to narrow on.
#[derive(Clone, Debug)]
pub struct ZapFilter {
    pub kind: u16,
    pub since: u64,
    pub p_tags: Option<Vec<String>>,
}

pub ghost struct ZapFilterView {
    pub kind: u16,
    pub since: u64,
    pub p_tags: Option<Seq<Seq<char>>>,
}

impl View for ZapFilter {
    type V = ZapFilterView;

    open spec fn view(&self) -> ZapFilterView {
        ZapFilterView {
            kind: self.kind,
            since: self.since,
            p_tags: match self.p_tags {
                Some(v) => Some(v@.map_values(|s: String| s@)),
                None => None,
            },
        }
    }
}

/// The hex keys of the tracked identities, in their configured order.
pub open spec fn spec_tracked_hexes(identities: Seq<TrackedIdentityView>) -> Seq<Seq<char>> {
    identities.map_values(|t: TrackedIdentityView| t.pubkey_hex)
}

/// Build the two filters of one subscription: the kind-only net and the
/// identity-tagged net, both bounded below by `since`.
pub fn zaps_filters_since(since: u64, identities: &Vec<TrackedIdentity>) -> (r: Vec<ZapFilter>)
    ensures
        r@.len() == 2,
        r@[0]@ == (ZapFilterView { kind: ZAP_RECEIPT_KIND, since, p_tags: None }),
        r@[1]@.kind == ZAP_RECEIPT_KIND,
        r@[1]@.since == since,
        r@[1]@.p_tags == Some(spec_tracked_hexes(identities_view(identities@))),
{
    let mut keys: Vec<String> = Vec::new();
    let mut i: usize = 0;
    while i < identities.len()
        invariant
            0 <= i <= identities.len(),
            keys@.len() == i,
            forall|j: int| 0 <= j < i ==> (#[trigger] keys@[j])@ == identities@[j]@.pubkey_hex,
        decreases identities.len() - i,
    {
        keys.push(identities[i].pubkey_hex.clone());
        i += 1;
    }
    proof {
        assert(keys@.map_values(|s: String| s@) =~= spec_tracked_hexes(
            identities_view(identities@),
        ));
    }
    let mut r: Vec<ZapFilter> = Vec::new();
    r.push(ZapFilter { kind: ZAP_RECEIPT_KIND, since, p_tags: None });
    r.push(ZapFilter { kind: ZAP_RECEIPT_KIND, since, p_tags: Some(keys) });
    r
}

} // verus!

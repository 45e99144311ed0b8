//! The per-event core of the ingestion loop.
//!
//! The loop itself only drains notifications; every decision it takes on one
//! delivered event — validate, attribute, resolve, deduplicate, persist —
//! is here, as one function from the store, the event and the tracked
//! identities to the next store state and a named outcome.
use vstd::prelude::*;

use crate::amount::{resolve_amount, spec_resolve_amount};
use crate::events::{NoteEvent, NoteEventView};
use crate::identity::{TrackedIdentity, TrackedIdentityView, identities_view};
use crate::store::{ZapStore, ZapView, inserted_at, new_zap_ok, tracks};
use crate::validate::{find_matched_identity, get_zap_request, spec_matched_identity,
    spec_zap_request};

verus! {

/// The latest creation time the date-time collaborator can represent
/// (the last UNIX second of year 9999); a receipt claiming a later time is
/// persisted under the current time instead.
pub const MAX_PERSISTABLE_TIMESTAMP: u64 = 253402300799;

/// The time a record is persisted under: the receipt's declared creation
/// time, or `now` where that time is out of representable range.
pub open spec fn spec_zap_time(receipt: NoteEventView, now: u64) -> u64 {
    if receipt.created_at <= MAX_PERSISTABLE_TIMESTAMP {
        receipt.created_at
    } else {
        now
    }
}

/// A resolved amount saturated to the persisted column width.
pub open spec fn clamp_amount(a: u64) -> u32 {
    if a > u32::MAX as u64 {
        u32::MAX
    } else {
        a as u32
    }
}

/// What became of one delivered event.
#[derive(Clone, Copy, Debug, PartialEq, Eq, Structural)]
pub enum IngestOutcome {
    /// No authentically signed request is embedded: not of interest.
    Rejected,
    /// The embedded request's author is not a tracked identity.
    NotTracked,
    /// A record with this dedup key already exists; idempotent no-op.
    Duplicate,
    /// A new record was persisted.
    Persisted,
}

/// The outcome that one event must lead to, given the store contents, the
/// receipt and the tracked identities.
pub open spec fn spec_ingest_outcome(
    store: Seq<ZapView>,
    receipt: NoteEventView,
    identities: Seq<TrackedIdentityView>,
) -> IngestOutcome {
    match spec_zap_request(receipt) {
        None => IngestOutcome::Rejected,
        Some(req) => match spec_matched_identity(identities, req.pubkey) {
            None => IngestOutcome::NotTracked,
            Some(t) => if tracks(store, t.npub, receipt.id) {
                IngestOutcome::Duplicate
            } else {
                IngestOutcome::Persisted
            },
        },
    }
}

/// The store change a persisted event must amount to: exactly one new
/// record, attributed to the matched identity, keyed by the receipt's
/// identifier, carrying the resolved amount and time.
pub open spec fn spec_persist_step(
    pre: Seq<ZapView>,
    post: Seq<ZapView>,
    receipt: NoteEventView,
    identities: Seq<TrackedIdentityView>,
    now: u64,
) -> bool {
    match spec_zap_request(receipt) {
        Some(req) => match spec_matched_identity(identities, req.pubkey) {
            Some(t) => post.len() == pre.len() + 1 && exists|i: int|
                #![trigger post[i]]
                inserted_at(pre, post, i) && new_zap_ok(
                    post[i],
                    t.npub,
                    receipt.id,
                    spec_zap_time(receipt, now),
                    clamp_amount(spec_resolve_amount(req)),
                ),
            None => false,
        },
        None => false,
    }
}

/// Take one delivered event through validation, attribution, amount
/// resolution, deduplication and persistence. Malformed or forged input and
/// duplicates are expected cases that leave the store unchanged; `now` is
/// the current time, used only where the receipt's declared time is out of
/// representable range.
pub fn ingest_event(
    store: &mut ZapStore,
    event: &NoteEvent,
    identities: &Vec<TrackedIdentity>,
    now: u64,
) -> (o: IngestOutcome)
    requires
        old(store).wf(),
    ensures
        final(store).wf(),
        o == spec_ingest_outcome(old(store)@, event@, identities_view(identities@)),
        o != IngestOutcome::Persisted ==> final(store)@ == old(store)@,
        o == IngestOutcome::Persisted ==> spec_persist_step(
            old(store)@,
            final(store)@,
            event@,
            identities_view(identities@),
            now,
        ),
{
    let request = match get_zap_request(event) {
        Some(request) => request,
        None => {
            return IngestOutcome::Rejected;
        },
    };
    let matched = match find_matched_identity(identities, &request.pubkey) {
        Some(matched) => matched,
        None => {
            return IngestOutcome::NotTracked;
        },
    };
    let amount_msat = resolve_amount(&request);
    let amount = if amount_msat > u32::MAX as u64 {
        u32::MAX
    } else {
        amount_msat as u32
    };
    let zapped_at = if event.created_at <= MAX_PERSISTABLE_TIMESTAMP {
        event.created_at
    } else {
        now
    };
    let added = store.add_zap(matched.npub.as_str(), event.id.as_str(), zapped_at, amount);
    if added {
        IngestOutcome::Persisted
    } else {
        IngestOutcome::Duplicate
    }
}

/// Ingestion is idempotent: once a receipt has been persisted, ingesting
/// the same receipt against the resulting store is reported a duplicate —
/// and a duplicate, by the contract of `ingest_event`, leaves the store
/// unchanged, so at most one record ever exists for the receipt.
pub proof fn lemma_ingest_idempotent(
    pre: Seq<ZapView>,
    post: Seq<ZapView>,
    receipt: NoteEventView,
    identities: Seq<TrackedIdentityView>,
    now: u64,
)
    requires
        spec_ingest_outcome(pre, receipt, identities) == IngestOutcome::Persisted,
        spec_persist_step(pre, post, receipt, identities, now),
    ensures
        spec_ingest_outcome(post, receipt, identities) == IngestOutcome::Duplicate,
{
    let req = spec_zap_request(receipt)->Some_0;
    let t = spec_matched_identity(identities, req.pubkey)->Some_0;
    let i = choose|i: int|
        #![trigger post[i]]
        inserted_at(pre, post, i) && new_zap_ok(
            post[i],
            t.npub,
            receipt.id,
            spec_zap_time(receipt, now),
            clamp_amount(spec_resolve_amount(req)),
        );
    assert(post[i].npub == t.npub && post[i].receipt_id == receipt.id);
    assert(tracks(post, t.npub, receipt.id));
}

/// A receipt that embeds no verified request — in particular one whose
/// description tag holds an event with a tampered signature, which the
/// validator refuses — is rejected, and a rejected event leaves the store
/// unchanged by the contract of `ingest_event`: it is never persisted.
pub proof fn lemma_invalid_receipt_never_persisted(
    store: Seq<ZapView>,
    receipt: NoteEventView,
    identities: Seq<TrackedIdentityView>,
)
    requires
        spec_zap_request(receipt) is None,
    ensures
        spec_ingest_outcome(store, receipt, identities) == IngestOutcome::Rejected,
{
}

/// A receipt whose embedded request is authentic but authored by a key
/// outside the tracked set is not of interest, and by the contract of
/// `ingest_event` it is never persisted.
pub proof fn lemma_untracked_author_never_persisted(
    store: Seq<ZapView>,
    receipt: NoteEventView,
    identities: Seq<TrackedIdentityView>,
)
    requires
        spec_zap_request(receipt) is Some,
        forall|j: int|
            0 <= j < identities.len() ==> (#[trigger] identities[j]).pubkey_hex != spec_zap_request(
                receipt,
            )->Some_0.pubkey,
    ensures
        spec_ingest_outcome(store, receipt, identities) == IngestOutcome::NotTracked,
{
    crate::validate::lemma_matched_identity_none(
        identities,
        spec_zap_request(receipt)->Some_0.pubkey,
    );
}

} // verus!

//! The receipt validator.
//!
//! A receipt is authentic for tracking purposes only if its description tag
//! carries a JSON-encoded request event whose identifier is the correct
//! content hash and whose signature verifies against its declared author.
//! The receipt's own signer merely vouches for the payment and is never
//! trusted for attribution.
use vstd::prelude::*;

use crate::events::{NoteEvent, NoteEventView, Tag, ZAP_RECEIPT_KIND, first_tag_named};
use crate::identity::{TrackedIdentity, TrackedIdentityView, identities_view};

verus! {

/// The request event that a JSON string decodes to, provided the decoded
/// event's identifier is its correct content hash and its signature verifies
/// against its declared author; `None` otherwise. The result depends on the
/// characters alone.
pub uninterp spec fn verified_request_of(json: Seq<char>) -> Option<NoteEventView>;

/// Relies on nostr_sdk::prelude::Event::from_json to decode a JSON event,
/// and on Event::verify to recompute the identifier hash and check the
/// signature against the declared author. The body only converts the decoded
/// fields to the plain-value event model.
#[verifier::external_body]
fn decode_verified_request(json: &str) -> (r: Option<NoteEvent>)
    ensures
        match r {
            Some(e) => verified_request_of(json@) == Some(e@),
            None => verified_request_of(json@) is None,
        },
{
    let ev = nostr_sdk::prelude::Event::from_json(json).ok()?;
    ev.verify().ok()?;
    let tags = ev.tags.iter().map(
        |t| Tag { name: t.kind().to_string(), content: t.content().map(String::from) },
    ).collect();
    Some(NoteEvent {
        id: ev.id.to_hex(),
        pubkey: ev.pubkey.to_hex(),
        kind: ev.kind.as_u16(),
        created_at: ev.created_at.as_secs(),
        tags,
    })
}

/// The verified request embedded in a receipt: `None` unless the event is of
/// the receipt kind, carries a description tag with a value, and that value
/// decodes to an authentically signed request.
pub open spec fn spec_zap_request(receipt: NoteEventView) -> Option<NoteEventView> {
    if receipt.kind != ZAP_RECEIPT_KIND {
        None
    } else {
        match first_tag_named(receipt.tags, "description"@) {
            Some(tag) => match tag.content {
                Some(json) => verified_request_of(json),
                None => None,
            },
            None => None,
        }
    }
}

/// Extract and verify the request embedded in a receipt; `None` on any
/// malformed or forged input, which is an expected, silently skipped case.
pub fn get_zap_request(receipt: &NoteEvent) -> (r: Option<NoteEvent>)
    ensures
        match r {
            Some(req) => spec_zap_request(receipt@) == Some(req@),
            None => spec_zap_request(receipt@) is None,
        },
{
    if receipt.kind != ZAP_RECEIPT_KIND {
        return None;
    }
    let needle = String::from_str("description");
    let tag = match crate::events::find_tag(&receipt.tags, &needle) {
        Some(tag) => tag,
        None => {
            return None;
        },
    };
    match &tag.content {
        Some(json) => decode_verified_request(json.as_str()),
        None => None,
    }
}

/// A receipt whose description tag holds anything but an authentically
/// signed request — a tampered signature, a wrong identifier hash, or no
/// event at all — embeds no verified request, whatever else the receipt
/// carries.
pub proof fn lemma_tampered_request_rejected(receipt: NoteEventView)
    requires
        match first_tag_named(receipt.tags, "description"@) {
            Some(tag) => match tag.content {
                Some(json) => verified_request_of(json) is None,
                None => true,
            },
            None => true,
        },
    ensures
        spec_zap_request(receipt) is None,
{
}

/// The first tracked identity whose key matches `author`, if any.
pub open spec fn spec_matched_identity(
    identities: Seq<TrackedIdentityView>,
    author: Seq<char>,
) -> Option<TrackedIdentityView>
    decreases identities.len(),
{
    if identities.len() == 0 {
        None
    } else if identities[0].pubkey_hex == author {
        Some(identities[0])
    } else {
        spec_matched_identity(identities.drop_first(), author)
    }
}

/// If no identity up to position `i` matches, the first match is the first
/// match in the rest.
proof fn lemma_matched_identity_skip(identities: Seq<TrackedIdentityView>, author: Seq<char>, i: int)
    requires
        0 <= i <= identities.len(),
        forall|j: int| 0 <= j < i ==> identities[j].pubkey_hex != author,
    ensures
        spec_matched_identity(identities, author) == spec_matched_identity(identities.skip(i), author),
    decreases i,
{
    if i > 0 {
        assert(identities.drop_first() =~= identities.skip(1));
        lemma_matched_identity_skip(identities.skip(1), author, i - 1);
        assert(identities.skip(1).skip(i - 1) =~= identities.skip(i));
    } else {
        assert(identities.skip(0) =~= identities);
    }
}

/// A match at position `i` with no earlier match is the first match.
pub proof fn lemma_matched_identity_at(
    identities: Seq<TrackedIdentityView>,
    author: Seq<char>,
    i: int,
)
    requires
        0 <= i < identities.len(),
        identities[i].pubkey_hex == author,
        forall|j: int| 0 <= j < i ==> identities[j].pubkey_hex != author,
    ensures
        spec_matched_identity(identities, author) == Some(identities[i]),
{
    lemma_matched_identity_skip(identities, author, i);
    assert(identities.skip(i)[0] == identities[i]);
}

/// With no matching identity there is no first match.
pub proof fn lemma_matched_identity_none(identities: Seq<TrackedIdentityView>, author: Seq<char>)
    requires
        forall|j: int| 0 <= j < identities.len() ==> identities[j].pubkey_hex != author,
    ensures
        spec_matched_identity(identities, author) is None,
{
    lemma_matched_identity_skip(identities, author, identities.len() as int);
    assert(identities.skip(identities.len() as int) =~= Seq::<TrackedIdentityView>::empty());
}

/// The first tracked identity whose key equals `author`, scanning in order.
pub fn find_matched_identity<'a>(
    identities: &'a Vec<TrackedIdentity>,
    author: &String,
) -> (r: Option<&'a TrackedIdentity>)
    ensures
        match r {
            Some(t) => spec_matched_identity(identities_view(identities@), author@) == Some(t@),
            None => spec_matched_identity(identities_view(identities@), author@) is None,
        },
{
    let ghost tv = identities_view(identities@);
    let mut i: usize = 0;
    while i < identities.len()
        invariant
            0 <= i <= identities.len(),
            tv == identities_view(identities@),
            forall|j: int| 0 <= j < i ==> tv[j].pubkey_hex != author@,
        decreases identities.len() - i,
    {
        if identities[i].pubkey_hex == *author {
            proof {
                lemma_matched_identity_at(tv, author@, i as int);
            }
            return Some(&identities[i]);
        }
        i += 1;
    }
    proof {
        lemma_matched_identity_none(tv, author@);
    }
    None
}

/// Whether the receipt embeds a verified request whose author is one of the
/// tracked identities.
pub fn was_zapped_by_npub(receipt: &NoteEvent, identities: &Vec<TrackedIdentity>) -> (r: bool)
    ensures
        r == match spec_zap_request(receipt@) {
            Some(req) => spec_matched_identity(identities_view(identities@), req.pubkey) is Some,
            None => false,
        },
{
    match get_zap_request(receipt) {
        Some(req) => find_matched_identity(identities, &req.pubkey).is_some(),
        None => false,
    }
}

} // verus!

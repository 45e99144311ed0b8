use nostr_sdk::prelude::{EventBuilder, FinalizeEvent, Keys, Kind, Tag as WireTag, ToBech32};

use zap_tracker::events::{NoteEvent, Tag};
use zap_tracker::identity::{TrackedIdentity, parse_tracked_identities};
use zap_tracker::ingest::{IngestOutcome, ingest_event};
use zap_tracker::store::ZapStore;
use zap_tracker::validate::{get_zap_request, was_zapped_by_npub};
use zap_tracker::amount::get_zap_request_amount;

const NOW: u64 = 1_700_000_000;

/// A signed request event from `keys`, as its canonical JSON.
fn signed_request_json(keys: &Keys, tags: Vec<Vec<&str>>) -> String {
    let mut builder = EventBuilder::new(Kind::ZapRequest, "");
    for tag in tags {
        builder = builder.tag(WireTag::parse(tag).unwrap());
    }
    builder.finalize(keys).unwrap().as_json()
}

/// A receipt event carrying `json` in its description tag.
fn receipt(receipt_id: &str, json: &str) -> NoteEvent {
    NoteEvent {
        id: receipt_id.to_string(),
        pubkey: "c".repeat(64),
        kind: 9735,
        created_at: NOW,
        tags: vec![Tag {
            name: "description".to_string(),
            content: Some(json.to_string()),
        }],
    }
}

fn identity_of(keys: &Keys) -> TrackedIdentity {
    TrackedIdentity::parse(&keys.public_key().to_hex()).unwrap()
}

#[test]
fn scenario_persist_then_redeliver() {
    let keys = Keys::generate();
    let identity = identity_of(&keys);
    let npub = identity.npub.clone();
    let identities = vec![identity];
    let json = signed_request_json(&keys, vec![vec!["amount", "21000"]]);
    let event = receipt("r1", &json);

    let mut store = ZapStore::new();
    assert_eq!(ingest_event(&mut store, &event, &identities, NOW), IngestOutcome::Persisted);
    let zap = store.get_most_recent_zap(&npub).unwrap();
    assert_eq!(zap.amount, 21000);
    assert_eq!(zap.receipt_id, "r1");
    assert_eq!(zap.npub, npub);
    assert_eq!(zap.zapped_at, NOW);

    // Re-delivery of the identical receipt is an idempotent no-op.
    assert_eq!(ingest_event(&mut store, &event, &identities, NOW), IngestOutcome::Duplicate);
    assert_eq!(store.get_most_recent_zaps(&npub, 10).len(), 1);
}

#[test]
fn tampered_signature_is_never_persisted() {
    let keys = Keys::generate();
    let identities = vec![identity_of(&keys)];
    let json = signed_request_json(&keys, vec![vec!["amount", "21000"]]);
    let sig = nostr_sdk::prelude::Event::from_json(&json).unwrap().sig.to_string();
    let flipped = if sig.starts_with('a') {
        format!("b{}", &sig[1..])
    } else {
        format!("a{}", &sig[1..])
    };
    let tampered = json.replace(&sig, &flipped);
    assert_ne!(tampered, json);

    let event = receipt("r1", &tampered);
    assert!(get_zap_request(&event).is_none());
    assert!(!was_zapped_by_npub(&event, &identities));
    let mut store = ZapStore::new();
    assert_eq!(ingest_event(&mut store, &event, &identities, NOW), IngestOutcome::Rejected);
    assert!(store.get_most_recent_zap(&identities[0].npub).is_none());
}

#[test]
fn tampered_fields_invalidate_the_identifier_hash() {
    let keys = Keys::generate();
    let identities = vec![identity_of(&keys)];
    let json = signed_request_json(&keys, vec![vec!["amount", "21000"]]);
    let inflated = json.replace("21000", "90000");
    assert_ne!(inflated, json);

    let event = receipt("r1", &inflated);
    assert!(get_zap_request(&event).is_none());
    let mut store = ZapStore::new();
    assert_eq!(ingest_event(&mut store, &event, &identities, NOW), IngestOutcome::Rejected);
    assert!(store.get_most_recent_zap(&identities[0].npub).is_none());
}

#[test]
fn untracked_author_is_never_persisted() {
    let author = Keys::generate();
    let watched = Keys::generate();
    let identities = vec![identity_of(&watched)];
    let json = signed_request_json(&author, vec![vec!["amount", "21000"]]);
    let event = receipt("r1", &json);

    assert!(!was_zapped_by_npub(&event, &identities));
    let mut store = ZapStore::new();
    assert_eq!(ingest_event(&mut store, &event, &identities, NOW), IngestOutcome::NotTracked);
    assert!(store.get_most_recent_zap(&identities[0].npub).is_none());
    assert_eq!(store.get_most_recent_zaps(&identities[0].npub, 10).len(), 0);
}

#[test]
fn wrong_kind_and_missing_description_are_rejected() {
    let keys = Keys::generate();
    let identities = vec![identity_of(&keys)];
    let json = signed_request_json(&keys, vec![vec!["amount", "21000"]]);
    let mut store = ZapStore::new();

    let mut wrong_kind = receipt("r1", &json);
    wrong_kind.kind = 1;
    assert!(get_zap_request(&wrong_kind).is_none());
    assert_eq!(ingest_event(&mut store, &wrong_kind, &identities, NOW), IngestOutcome::Rejected);

    let no_description = NoteEvent {
        id: "r2".to_string(),
        pubkey: "c".repeat(64),
        kind: 9735,
        created_at: NOW,
        tags: vec![Tag { name: "p".to_string(), content: Some("d".repeat(64)) }],
    };
    assert!(get_zap_request(&no_description).is_none());
    assert_eq!(
        ingest_event(&mut store, &no_description, &identities, NOW),
        IngestOutcome::Rejected
    );

    let empty_description = NoteEvent {
        id: "r3".to_string(),
        pubkey: "c".repeat(64),
        kind: 9735,
        created_at: NOW,
        tags: vec![Tag { name: "description".to_string(), content: None }],
    };
    assert_eq!(
        ingest_event(&mut store, &empty_description, &identities, NOW),
        IngestOutcome::Rejected
    );
}

#[test]
fn first_description_tag_wins() {
    let keys = Keys::generate();
    let identities = vec![identity_of(&keys)];
    let json = signed_request_json(&keys, vec![vec!["amount", "21000"]]);
    let event = NoteEvent {
        id: "r1".to_string(),
        pubkey: "c".repeat(64),
        kind: 9735,
        created_at: NOW,
        tags: vec![
            Tag { name: "description".to_string(), content: Some("not an event".to_string()) },
            Tag { name: "description".to_string(), content: Some(json) },
        ],
    };
    // The valid request sits in the second description tag; only the first
    // one is consulted.
    assert!(get_zap_request(&event).is_none());
    let mut store = ZapStore::new();
    assert_eq!(ingest_event(&mut store, &event, &identities, NOW), IngestOutcome::Rejected);
}

#[test]
fn valid_request_round_trips_through_the_validator() {
    let keys = Keys::generate();
    let json = signed_request_json(&keys, vec![vec!["amount", "21000"], vec!["e", "ff"]]);
    let event = receipt("r1", &json);
    let request = get_zap_request(&event).unwrap();
    assert_eq!(request.pubkey, keys.public_key().to_hex());
    assert_eq!(request.kind, 9734);
    assert!(request.tags.iter().any(|t| {
        t.name == "amount" && t.content.as_deref() == Some("21000")
    }));
}

#[test]
fn receipt_amount_reads_through_the_embedded_request() {
    let keys = Keys::generate();
    let json = signed_request_json(&keys, vec![vec!["amount", "21000"]]);
    assert_eq!(get_zap_request_amount(&receipt("r1", &json)), 21000);
    let no_amount = signed_request_json(&keys, vec![vec!["e", "ff"]]);
    assert_eq!(get_zap_request_amount(&receipt("r2", &no_amount)), 0);
    let mut broken = receipt("r3", "{ not json");
    assert_eq!(get_zap_request_amount(&broken), 0);
    broken.kind = 1;
    assert_eq!(get_zap_request_amount(&broken), 0);
}

#[test]
fn oversized_amounts_saturate_and_oversized_times_fall_back() {
    let keys = Keys::generate();
    let identity = identity_of(&keys);
    let npub = identity.npub.clone();
    let identities = vec![identity];
    // 2^33 millisatoshis does not fit the persisted column.
    let json = signed_request_json(&keys, vec![vec!["amount", "8589934592"]]);
    let mut event = receipt("r1", &json);
    // A creation time past year 9999 is out of representable range.
    event.created_at = 300_000_000_000;

    let mut store = ZapStore::new();
    assert_eq!(ingest_event(&mut store, &event, &identities, NOW), IngestOutcome::Persisted);
    let zap = store.get_most_recent_zap(&npub).unwrap();
    assert_eq!(zap.amount, u32::MAX);
    assert_eq!(zap.zapped_at, NOW);
}

#[test]
fn identity_parsing_round_trips_between_encodings() {
    let keys = Keys::generate();
    let hex = keys.public_key().to_hex();
    let npub = keys.public_key().to_bech32().unwrap();

    let from_hex = TrackedIdentity::parse(&hex).unwrap();
    assert_eq!(from_hex.pubkey_hex, hex);
    assert_eq!(from_hex.pubkey_hex.len(), 64);
    assert_eq!(from_hex.npub, npub);

    let from_npub = TrackedIdentity::parse(&npub).unwrap();
    assert_eq!(from_npub.pubkey_hex, hex);
    assert_eq!(from_npub.npub, npub);

    assert!(TrackedIdentity::parse("npub1notakey").is_none());

    let parsed = parse_tracked_identities(&vec![hex.clone(), npub.clone()]).unwrap();
    assert_eq!(parsed.len(), 2);
    assert_eq!(parsed[0].pubkey_hex, parsed[1].pubkey_hex);
    assert!(parse_tracked_identities(&vec![hex, "bogus".to_string()]).is_none());
}

//! Tracked public identities.
//!
//! A tracked identity is held in both encodings the pipeline needs: the
//! bech32 `npub` string under which records are persisted and queried, and
//! the lowercase hex key against which a request's author is matched.
use nostr_sdk::prelude::ToBech32;
use vstd::prelude::*;

verus! {

/// A public identity the pipeline watches, set at startup and never mutated.
#[derive(Clone, Debug)]
pub struct TrackedIdentity {
    /// bech32 encoding of the key; records are attributed under this string.
    pub npub: String,
    /// Lowercase hex encoding of the same key; authors are matched on it.
    pub pubkey_hex: String,
}

pub ghost struct TrackedIdentityView {
    pub npub: Seq<char>,
    pub pubkey_hex: Seq<char>,
}

impl View for TrackedIdentity {
    type V = TrackedIdentityView;

    open spec fn view(&self) -> TrackedIdentityView {
        TrackedIdentityView { npub: self.npub@, pubkey_hex: self.pubkey_hex@ }
    }
}

pub open spec fn identities_view(ts: Seq<TrackedIdentity>) -> Seq<TrackedIdentityView> {
    ts.map_values(|t: TrackedIdentity| t@)
}

/// The identity that a well-formed key string denotes: its canonical bech32
/// and hex encodings. The result depends on the characters alone.
pub uninterp spec fn identity_of_key(s: Seq<char>) -> Option<TrackedIdentityView>;

/// Relies on nostr_sdk::prelude::PublicKey::parse to decode a public key
/// given as bech32, hex or an URI, and on PublicKey::to_bech32 /
/// PublicKey::to_hex for its two canonical encodings.
#[verifier::external_body]
fn parse_public_key(s: &str) -> (r: Option<TrackedIdentity>)
    ensures
        match r {
            Some(t) => identity_of_key(s@) == Some(t@),
            None => identity_of_key(s@) is None,
        },
{
    let pk = match nostr_sdk::prelude::PublicKey::parse(s) {
        Ok(pk) => pk,
        Err(_) => return None,
    };
    let npub = match pk.to_bech32() {
        Ok(npub) => npub,
        Err(_) => return None,
    };
    Some(TrackedIdentity { npub, pubkey_hex: pk.to_hex() })
}

impl TrackedIdentity {
    /// Decode one configured key string into a tracked identity, or `None`
    /// where it is not a well-formed key.
    pub fn parse(s: &str) -> (r: Option<TrackedIdentity>)
        ensures
            match r {
                Some(t) => identity_of_key(s@) == Some(t@),
                None => identity_of_key(s@) is None,
            },
    {
        parse_public_key(s)
    }
}

/// Decode the configured key strings, keeping their order; `None` as soon as
/// one of them is not a well-formed key.
pub fn parse_tracked_identities(keys: &Vec<String>) -> (r: Option<Vec<TrackedIdentity>>)
    ensures
        match r {
            Some(ts) => ts@.len() == keys@.len() && forall|i: int|
                0 <= i < keys@.len() ==> identity_of_key(keys@[i]@) == Some(
                    #[trigger] identities_view(ts@)[i],
                ),
            None => exists|i: int|
                0 <= i < keys@.len() && identity_of_key(#[trigger] keys@[i]@) is None,
        },
{
    let mut out: Vec<TrackedIdentity> = Vec::new();
    let mut i: usize = 0;
    while i < keys.len()
        invariant
            0 <= i <= keys@.len(),
            out@.len() == i,
            forall|j: int|
                0 <= j < i ==> identity_of_key(keys@[j]@) == Some(
                    #[trigger] identities_view(out@)[j],
                ),
        decreases keys@.len() - i,
    {
        match TrackedIdentity::parse(keys[i].as_str()) {
            Some(t) => {
                let ghost prev = out@;
                let ghost tv = t@;
                out.push(t);
                proof {
                    assert(identities_view(out@) =~= identities_view(prev).push(tv));
                }
            },
            None => {
                return None;
            },
        }
        i += 1;
    }
    Some(out)
}

} // verus!

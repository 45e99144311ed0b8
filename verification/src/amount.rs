//! The amount resolver.
//!
//! A verified request declares its amount in millisatoshis either directly
//! in an amount tag or inside the bolt11 invoice it carries. The direct tag
//! is preferred; with no tag the invoice's declared amount is used; every
//! unresolvable path degrades to zero, never to a hard failure, so that the
//! surrounding record is still persisted.
use vstd::prelude::*;

use crate::events::{NoteEventView, TagView, first_tag_named};
use crate::validate::spec_zap_request;

verus! {

pub open spec fn is_ascii_digit(c: char) -> bool {
    48 <= c as u32 <= 57
}

pub open spec fn digit_val(c: char) -> nat {
    (c as u32 - 48) as nat
}

pub open spec fn all_digits(s: Seq<char>) -> bool {
    forall|i: int| 0 <= i < s.len() ==> is_ascii_digit(#[trigger] s[i])
}

/// The number that a string of decimal digits denotes.
pub open spec fn digits_val(s: Seq<char>) -> nat
    decreases s.len(),
{
    if s.len() == 0 {
        0
    } else {
        digits_val(s.drop_last()) * 10 + digit_val(s.last())
    }
}

/// The value of a digit string never shrinks as the string grows.
proof fn lemma_digits_val_prefix_le(s: Seq<char>, i: int, j: int)
    requires
        0 <= i <= j <= s.len(),
    ensures
        digits_val(s.take(i)) <= digits_val(s.take(j)),
    decreases j - i,
{
    if i < j {
        lemma_digits_val_prefix_le(s, i, j - 1);
        assert(s.take(j).drop_last() =~= s.take(j - 1));
        assert(digits_val(s.take(j - 1)) * 10 >= digits_val(s.take(j - 1)));
    }
}

/// What a non-empty, all-digit string denotes, if it fits in the result
/// type; `None` on an empty, non-numeric or too large string.
pub open spec fn spec_parse_u64(s: Seq<char>) -> Option<u64> {
    if s.len() > 0 && all_digits(s) && digits_val(s) <= u64::MAX {
        Some(digits_val(s) as u64)
    } else {
        None
    }
}

/// Parse a string of decimal digits.
pub fn parse_u64(s: &str) -> (r: Option<u64>)
    ensures
        r == spec_parse_u64(s@),
{
    let n = s.unicode_len();
    if n == 0 {
        return None;
    }
    let mut val: u64 = 0;
    let mut i: usize = 0;
    while i < n
        invariant
            0 <= i <= n,
            n == s@.len(),
            all_digits(s@.take(i as int)),
            val == digits_val(s@.take(i as int)),
        decreases n - i,
    {
        let c = s.get_char(i);
        let code = c as u32;
        proof {
            assert(s@.take(i + 1).drop_last() =~= s@.take(i as int));
        }
        if code < 48 || code > 57 {
            return None;
        }
        let wide: u128 = (val as u128) * 10 + ((code - 48) as u128);
        if wide > u64::MAX as u128 {
            proof {
                lemma_digits_val_prefix_le(s@, i + 1, n as int);
                assert(s@.take(n as int) =~= s@);
            }
            return None;
        }
        val = wide as u64;
        i += 1;
    }
    proof {
        assert(s@.take(n as int) =~= s@);
    }
    Some(val)
}

/// The amount in millisatoshis that a bolt11 invoice string declares:
/// `None` where the string is not a well-formed, structurally signed
/// invoice; `Some(0)` where the invoice carries no amount. The result
/// depends on the characters alone.
pub uninterp spec fn invoice_amount_msat(invoice: Seq<char>) -> Option<u64>;

/// Relies on lightning_invoice's SignedRawBolt11Invoice FromStr parser and
/// on Bolt11Invoice::from_signed, whose checks include that the embedded
/// signature is structurally valid, and reads the declared amount with
/// Bolt11Invoice::amount_milli_satoshis.
#[verifier::external_body]
fn decode_invoice_amount(invoice: &str) -> (r: Option<u64>)
    ensures
        r == invoice_amount_msat(invoice@),
{
    let signed = match invoice.parse::<lightning_invoice::SignedRawBolt11Invoice>() {
        Ok(signed) => signed,
        Err(_) => return None,
    };
    match lightning_invoice::Bolt11Invoice::from_signed(signed) {
        Ok(inv) => Some(inv.amount_milli_satoshis().unwrap_or(0)),
        Err(_) => None,
    }
}

pub open spec fn spec_tag_amount(tag: TagView) -> u64 {
    match tag.content {
        Some(c) => match spec_parse_u64(c) {
            Some(a) => a,
            None => 0,
        },
        None => 0,
    }
}

pub open spec fn spec_invoice_amount(tag: TagView) -> u64 {
    match tag.content {
        Some(c) => match invoice_amount_msat(c) {
            Some(a) => a,
            None => 0,
        },
        None => 0,
    }
}

/// The amount in millisatoshis that a verified request resolves to: the
/// amount tag's number where the tag exists, else the bolt11 tag's declared
/// invoice amount, else zero.
pub open spec fn spec_resolve_amount(request: NoteEventView) -> u64 {
    match first_tag_named(request.tags, "amount"@) {
        Some(tag) => spec_tag_amount(tag),
        None => match first_tag_named(request.tags, "bolt11"@) {
            Some(tag) => spec_invoice_amount(tag),
            None => 0,
        },
    }
}

/// Resolve the amount a verified request declares; zero on every
/// unresolvable path.
pub fn resolve_amount(request: &crate::events::NoteEvent) -> (r: u64)
    ensures
        r == spec_resolve_amount(request@),
{
    let amount_name = String::from_str("amount");
    match crate::events::find_tag(&request.tags, &amount_name) {
        Some(tag) => match &tag.content {
            Some(c) => match parse_u64(c.as_str()) {
                Some(a) => a,
                None => 0,
            },
            None => 0,
        },
        None => {
            let bolt11_name = String::from_str("bolt11");
            match crate::events::find_tag(&request.tags, &bolt11_name) {
                Some(tag) => match &tag.content {
                    Some(c) => match decode_invoice_amount(c.as_str()) {
                        Some(a) => a,
                        None => 0,
                    },
                    None => 0,
                },
                None => 0,
            }
        },
    }
}

/// The amount a receipt's embedded request declares, or zero where the
/// receipt embeds no verified request.
pub fn get_zap_request_amount(receipt: &crate::events::NoteEvent) -> (r: u64)
    ensures
        r == match spec_zap_request(receipt@) {
            Some(req) => spec_resolve_amount(req),
            None => 0,
        },
{
    match crate::validate::get_zap_request(receipt) {
        Some(req) => resolve_amount(&req),
        None => 0,
    }
}

/// With no amount tag, a well-formed bolt11 tag declaring amount `a`
/// resolves to exactly `a`.
pub proof fn lemma_amount_invoice_fallback(request: NoteEventView, a: u64)
    requires
        first_tag_named(request.tags, "amount"@) is None,
        match first_tag_named(request.tags, "bolt11"@) {
            Some(tag) => match tag.content {
                Some(c) => invoice_amount_msat(c) == Some(a),
                None => false,
            },
            None => false,
        },
    ensures
        spec_resolve_amount(request) == a,
{
}

/// With neither an amount tag nor a bolt11 tag the resolved amount is zero.
pub proof fn lemma_amount_default_zero(request: NoteEventView)
    requires
        first_tag_named(request.tags, "amount"@) is None,
        first_tag_named(request.tags, "bolt11"@) is None,
    ensures
        spec_resolve_amount(request) == 0,
{
}

} // verus!

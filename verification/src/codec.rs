//! The canonical wire format of a signal result.
//!
//! A result crosses the transport as 96 bytes: three 32-byte big-endian
//! fields holding the decision, the confidence, and the forecast value,
//! in that order. [`encode`] and [`decode`] handle exactly that layout.
//! [`recover`] handles the blob as the transport returns it: the 96-byte
//! region may sit at an unknown offset inside foreign framing, so every
//! 32-byte-aligned window is tried in increasing order, and a window
//! counts only when it decodes cleanly to a plausible result. When the
//! blob is long enough to hold the known envelope (an offset word, an
//! identifier word, and two pointer words ahead of the payload), the
//! offset that envelope uses is tried first.

use crate::bytes::{be_val, lemma_be_val_concat, lemma_be_val_zero, lemma_pow256_values,
    push_be_u128, read_be_u128};
use crate::signal::{lemma_uint256_of_val, uint256_of, DecodeError, SignalResult, Uint256};
use vstd::prelude::*;

verus! {

/// The least value a recovered forecast must exceed to be taken as
/// genuine: a tenth of one native unit, in smallest-unit terms.
pub const FORECAST_FLOOR: u64 = 100_000_000_000_000_000;

/// The byte offset at which the known transport envelope places the
/// canonical region.
pub const ENVELOPE_OFFSET: usize = 128;

/// The least blob length at which the envelope offset is tried first.
pub const ENVELOPE_MIN_LEN: usize = 224;

/// The numeric reading of field `k` of a 96-byte canonical buffer.
pub open spec fn field_at(b: Seq<u8>, k: int) -> nat {
    be_val(b.subrange(32 * k, 32 * k + 32))
}

/// What a strict decode returns: the three fields read positionally,
/// rejected when the length is wrong or the first field is neither 0
/// nor 1 (a nonzero byte anywhere in that field counts as out of range).
pub open spec fn decode_spec(b: Seq<u8>) -> Result<SignalResult, DecodeError> {
    if b.len() != 96 {
        Err(DecodeError::WrongLength)
    } else if field_at(b, 0) > 1 {
        Err(DecodeError::DecisionOutOfRange)
    } else {
        Ok(
            SignalResult {
                decision: field_at(b, 0) as u8,
                confidence: uint256_of(field_at(b, 1)),
                forecast_value: uint256_of(field_at(b, 2)),
            },
        )
    }
}

/// Whether `b` is the canonical encoding of `r`.
pub open spec fn is_encoding(b: Seq<u8>, r: SignalResult) -> bool {
    &&& b.len() == 96
    &&& field_at(b, 0) == r.decision
    &&& field_at(b, 1) == r.confidence.val()
    &&& field_at(b, 2) == r.forecast_value.val()
}

/// Whether a decoded result passes the plausibility filter of the
/// tolerant decoder: foreign framing bytes can decode cleanly, so a
/// window counts only when its values look like a genuine signal.
pub open spec fn spec_plausible(r: SignalResult) -> bool {
    &&& r.decision <= 1
    &&& r.confidence.val() <= 100
    &&& r.forecast_value.val() > FORECAST_FLOOR
}

/// Whether the 96-byte window of `b` at `off` decodes to a plausible
/// result.
pub open spec fn accepted_at(b: Seq<u8>, off: int) -> bool {
    match decode_spec(b.subrange(off, off + 96)) {
        Ok(r) => spec_plausible(r),
        Err(_) => false,
    }
}

/// The result decoded from the 96-byte window of `b` at `off`.
pub open spec fn result_at(b: Seq<u8>, off: int) -> SignalResult {
    decode_spec(b.subrange(off, off + 96))->Ok_0
}

/// The first accepted window at or after `off`, walking offsets upward
/// in 32-byte strides.
pub open spec fn scan_from(b: Seq<u8>, off: int) -> Result<SignalResult, DecodeError>
    decreases b.len() + 96 - off,
{
    if off < 0 || off + 96 > b.len() {
        Err(DecodeError::NoValidTuple)
    } else if accepted_at(b, off) {
        Ok(result_at(b, off))
    } else {
        scan_from(b, off + 32)
    }
}

/// What the tolerant decoder returns: too-short blobs are rejected, the
/// envelope offset is tried first when the blob can hold the envelope,
/// and otherwise the aligned windows are scanned in increasing order.
pub open spec fn recover_spec(b: Seq<u8>) -> Result<SignalResult, DecodeError> {
    if b.len() < 96 {
        Err(DecodeError::TooShort)
    } else if b.len() >= ENVELOPE_MIN_LEN && accepted_at(b, ENVELOPE_OFFSET as int) {
        Ok(result_at(b, ENVELOPE_OFFSET as int))
    } else {
        scan_from(b, 0)
    }
}

/// Appends one 32-byte big-endian field holding `hi * 2^128 + lo`.
fn push_u256(out: &mut Vec<u8>, hi: u128, lo: u128)
    ensures
        final(out)@.len() == old(out)@.len() + 32,
        final(out)@.subrange(0, old(out)@.len() as int) == old(out)@,
        be_val(final(out)@.subrange(old(out)@.len() as int, final(out)@.len() as int)) == hi as nat
            * 0x100000000000000000000000000000000nat + lo as nat,
{
    let ghost base = out@.len() as int;
    push_be_u128(out, hi);
    let ghost mid = out@;
    push_be_u128(out, lo);
    proof {
        let a = out@.subrange(base, base + 16);
        let c = out@.subrange(base + 16, base + 32);
        assert(out@.subrange(0, base + 16) =~= mid);
        assert(a =~= mid.subrange(base, base + 16));
        assert(out@.subrange(base, base + 32) =~= a + c);
        lemma_be_val_concat(a, c);
        lemma_pow256_values();
        assert(out@.subrange(0, base) =~= mid.subrange(0, base));
    }
}

/// Encodes a result into the canonical 96-byte buffer: the decision
/// right-aligned in a zero 32-byte field, then the confidence and the
/// forecast value as 32-byte big-endian fields.
pub fn encode(r: &SignalResult) -> (out: Vec<u8>)
    ensures
        out@.len() == 96,
        is_encoding(out@, *r),
{
    let mut out: Vec<u8> = Vec::new();
    push_u256(&mut out, 0, r.decision as u128);
    let ghost s1 = out@;
    push_u256(&mut out, r.confidence.hi, r.confidence.lo);
    let ghost s2 = out@;
    push_u256(&mut out, r.forecast_value.hi, r.forecast_value.lo);
    proof {
        assert(out@.subrange(0, 64) =~= s2);
        assert(s2.subrange(0, 32) =~= s1);
        assert(out@.subrange(0, 32) =~= s1.subrange(0, 32));
        assert(out@.subrange(32, 64) =~= s2.subrange(32, 64));
        assert(field_at(out@, 0) == be_val(s1.subrange(0, 32)));
        assert(field_at(out@, 1) == be_val(s2.subrange(32, 64)));
        assert(field_at(out@, 2) == be_val(out@.subrange(64, 96)));
    }
    out
}

/// Reads one 32-byte big-endian field starting at `start`.
pub(crate) fn read_u256(b: &[u8], start: usize) -> (r: Uint256)
    requires
        start + 32 <= b@.len(),
    ensures
        r.val() == be_val(b@.subrange(start as int, start as int + 32)),
        r == uint256_of(be_val(b@.subrange(start as int, start as int + 32))),
{
    let n = b.len();
    proof {
        assert(start + 16 <= n);
    }
    let hi = read_be_u128(b, start);
    let lo = read_be_u128(b, start + 16);
    proof {
        let a = b@.subrange(start as int, start as int + 16);
        let c = b@.subrange(start as int + 16, start as int + 32);
        assert(b@.subrange(start as int, start as int + 32) =~= a + c);
        lemma_be_val_concat(a, c);
        lemma_pow256_values();
        lemma_uint256_of_val(Uint256 { hi, lo });
    }
    Uint256 { hi, lo }
}

/// A 32-byte field whose first 31 bytes are zero reads as its last byte.
proof fn lemma_field_low(s: Seq<u8>)
    requires
        s.len() == 32,
        forall|k: int| 0 <= k < 31 ==> s[k] == 0,
    ensures
        be_val(s) == s[31],
{
    lemma_be_val_zero(s.drop_last());
    assert(forall|k: int| 0 <= k < 31 ==> s.drop_last()[k] == s[k]);
    assert(be_val(s.drop_last()) == 0);
    assert(s.last() == s[31]);
}

/// A 32-byte field with a nonzero byte among its first 31 reads above 1.
proof fn lemma_field_high(s: Seq<u8>, j: int)
    requires
        s.len() == 32,
        0 <= j < 31,
        s[j] != 0,
    ensures
        be_val(s) > 1,
{
    if be_val(s) <= 1 {
        assert(be_val(s) == be_val(s.drop_last()) * 256 + s.last());
        assert(be_val(s.drop_last()) == 0);
        lemma_be_val_zero(s.drop_last());
        assert(s.drop_last()[j] == s[j]);
        assert(false);
    }
}

/// Strictly decodes the 96-byte window of `b` at `off`.
fn decode_at(b: &[u8], off: usize) -> (res: Result<SignalResult, DecodeError>)
    requires
        off + 96 <= b@.len(),
    ensures
        res == decode_spec(b@.subrange(off as int, off as int + 96)),
{
    let ghost w = b@.subrange(off as int, off as int + 96);
    proof {
        assert(w.subrange(0, 32) =~= b@.subrange(off as int, off as int + 32));
        assert(w.subrange(32, 64) =~= b@.subrange(off as int + 32, off as int + 64));
        assert(w.subrange(64, 96) =~= b@.subrange(off as int + 64, off as int + 96));
    }
    let n = b.len();
    let mut j: usize = 0;
    while j < 31
        invariant
            n == b@.len(),
            off + 96 <= n,
            j <= 31,
            w == b@.subrange(off as int, off as int + 96),
            forall|k: int| 0 <= k < j ==> w.subrange(0, 32)[k] == 0,
        decreases 31 - j,
    {
        if b[off + j] != 0 {
            proof {
                assert(w.subrange(0, 32)[j as int] == b@[off + j]);
                lemma_field_high(w.subrange(0, 32), j as int);
            }
            return Err(DecodeError::DecisionOutOfRange);
        }
        proof {
            assert(w.subrange(0, 32)[j as int] == b@[off + j]);
        }
        j = j + 1;
    }
    let d = b[off + 31];
    proof {
        assert(w.subrange(0, 32)[31] == b@[off + 31]);
        lemma_field_low(w.subrange(0, 32));
        assert(field_at(w, 0) == d);
    }
    if d > 1 {
        return Err(DecodeError::DecisionOutOfRange);
    }
    let confidence = read_u256(b, off + 32);
    let forecast_value = read_u256(b, off + 64);
    Ok(SignalResult { decision: d, confidence, forecast_value })
}

/// Strictly decodes a canonical 96-byte buffer. Fails with
/// `WrongLength` unless exactly 96 bytes are given, and with
/// `DecisionOutOfRange` unless the first field holds 0 or 1; the other
/// two fields are accepted as any 256-bit value and preserved exactly.
pub fn decode(b: &[u8]) -> (res: Result<SignalResult, DecodeError>)
    ensures
        res == decode_spec(b@),
{
    if b.len() != 96 {
        return Err(DecodeError::WrongLength);
    }
    proof {
        assert(b@.subrange(0, 96) =~= b@);
    }
    decode_at(b, 0)
}

/// Whether a decoded result passes the plausibility filter.
pub fn is_plausible(r: &SignalResult) -> (p: bool)
    ensures
        p == spec_plausible(*r),
{
    r.decision <= 1 && r.confidence.le_u64(100) && r.forecast_value.gt_u64(FORECAST_FLOOR)
}

/// Recovers a signal result from a transport-framed blob.
///
/// Fails with `TooShort` on fewer than 96 bytes. Otherwise the 96-byte
/// window at the envelope offset is tried first when the blob can hold
/// the known envelope, then every 32-byte-aligned window in increasing
/// order; the first window that decodes cleanly to a plausible result is
/// returned. When no window qualifies the call fails with
/// `NoValidTuple`: the caller decides what to do then, the codec never
/// substitutes a value of its own.
pub fn recover(b: &[u8]) -> (res: Result<SignalResult, DecodeError>)
    ensures
        res == recover_spec(b@),
        res matches Ok(r) ==> spec_plausible(r),
{
    let n = b.len();
    if n < 96 {
        return Err(DecodeError::TooShort);
    }
    if n >= ENVELOPE_MIN_LEN {
        match decode_at(b, ENVELOPE_OFFSET) {
            Ok(r) => {
                if is_plausible(&r) {
                    return Ok(r);
                }
            },
            Err(_) => {},
        }
    }
    let mut off: usize = 0;
    while off <= n - 96
        invariant
            n == b@.len(),
            n >= 96,
            off <= n,
            scan_from(b@, 0) == scan_from(b@, off as int),
            !(b@.len() >= ENVELOPE_MIN_LEN && accepted_at(b@, ENVELOPE_OFFSET as int)),
        decreases n - off,
    {
        match decode_at(b, off) {
            Ok(r) => {
                if is_plausible(&r) {
                    return Ok(r);
                }
            },
            Err(_) => {},
        }
        proof {
            assert(!accepted_at(b@, off as int));
        }
        off = off + 32;
    }
    Err(DecodeError::NoValidTuple)
}

/// Law: a strict decode of a canonical encoding gives back exactly the
/// encoded result, for every result whose decision is 0 or 1.
pub proof fn lemma_decode_encode_roundtrip(b: Seq<u8>, r: SignalResult)
    requires
        is_encoding(b, r),
        r.decision <= 1,
    ensures
        decode_spec(b) == Ok::<SignalResult, DecodeError>(r),
{
    lemma_uint256_of_val(r.confidence);
    lemma_uint256_of_val(r.forecast_value);
}

/// Law: the tolerant decoder on a blob that is exactly one canonical
/// encoding returns the encoded result, provided the result is
/// plausible.
pub proof fn lemma_recover_exact(b: Seq<u8>, r: SignalResult)
    requires
        is_encoding(b, r),
        r.decision <= 1,
        spec_plausible(r),
    ensures
        recover_spec(b) == Ok::<SignalResult, DecodeError>(r),
{
    lemma_decode_encode_roundtrip(b, r);
    assert(b.subrange(0, 96) =~= b);
    assert(accepted_at(b, 0));
}

/// Law: when a blob of at least 224 bytes holds the canonical encoding
/// of a plausible result at byte offset 128, the tolerant decoder
/// returns that result, whatever the surrounding bytes hold.
pub proof fn lemma_recover_enveloped(b: Seq<u8>, r: SignalResult)
    requires
        b.len() >= 224,
        is_encoding(b.subrange(128, 224), r),
        r.decision <= 1,
        spec_plausible(r),
    ensures
        recover_spec(b) == Ok::<SignalResult, DecodeError>(r),
{
    lemma_decode_encode_roundtrip(b.subrange(128, 224), r);
    assert(accepted_at(b, 128));
}

/// Law: a blob shorter than 96 bytes is always rejected as too short.
pub proof fn lemma_recover_too_short(b: Seq<u8>)
    requires
        b.len() < 96,
    ensures
        recover_spec(b) == Err::<SignalResult, DecodeError>(DecodeError::TooShort),
{
}

proof fn lemma_scan_none(b: Seq<u8>, off: int)
    requires
        0 <= off,
        off % 32 == 0,
        forall|o: int| 0 <= o && o + 96 <= b.len() && o % 32 == 0 ==> !#[trigger] accepted_at(
            b,
            o,
        ),
    ensures
        scan_from(b, off) == Err::<SignalResult, DecodeError>(DecodeError::NoValidTuple),
    decreases b.len() + 96 - off,
{
    if off + 96 <= b.len() {
        assert(!accepted_at(b, off));
        lemma_scan_none(b, off + 32);
    }
}

/// Law: when no 32-byte-aligned window decodes to a plausible result,
/// the tolerant decoder fails with `NoValidTuple`, for any blob of at
/// least 96 bytes.
pub proof fn lemma_recover_no_candidate(b: Seq<u8>)
    requires
        b.len() >= 96,
        forall|off: int| 0 <= off && off + 96 <= b.len() && off % 32 == 0 ==> !#[trigger] accepted_at(
            b,
            off,
        ),
    ensures
        recover_spec(b) == Err::<SignalResult, DecodeError>(DecodeError::NoValidTuple),
{
    if b.len() >= 224 {
        assert(!accepted_at(b, 128));
    }
    lemma_scan_none(b, 0);
}

proof fn lemma_scan_plausible(b: Seq<u8>, off: int, r: SignalResult)
    requires
        0 <= off,
        scan_from(b, off) == Ok::<SignalResult, DecodeError>(r),
    ensures
        spec_plausible(r),
    decreases b.len() + 96 - off,
{
    if off + 96 <= b.len() && !accepted_at(b, off) {
        lemma_scan_plausible(b, off + 32, r);
    }
}

/// Law: whatever the tolerant decoder returns has passed the filter: a
/// recovered result never carries a confidence above 100 percent, a
/// decision other than 0 or 1, or a forecast at or below the floor.
pub proof fn lemma_recover_plausible(b: Seq<u8>, r: SignalResult)
    requires
        recover_spec(b) == Ok::<SignalResult, DecodeError>(r),
    ensures
        spec_plausible(r),
{
    if b.len() >= 96 && !(b.len() >= ENVELOPE_MIN_LEN && accepted_at(b, ENVELOPE_OFFSET as int)) {
        lemma_scan_plausible(b, 0, r);
    }
}

/// Law: the scan returns the earliest accepted aligned window: an
/// accepted window at `target` is the scan's result whenever no earlier
/// aligned window is accepted.
pub proof fn lemma_scan_earliest(b: Seq<u8>, off: int, target: int)
    requires
        0 <= off <= target,
        off % 32 == 0,
        target % 32 == 0,
        target + 96 <= b.len(),
        accepted_at(b, target),
        forall|o: int| off <= o < target && o % 32 == 0 ==> !#[trigger] accepted_at(b, o),
    ensures
        scan_from(b, off) == Ok::<SignalResult, DecodeError>(result_at(b, target)),
    decreases target - off,
{
    if off < target {
        assert(!accepted_at(b, off));
        lemma_scan_earliest(b, off + 32, target);
    }
}

} // verus!

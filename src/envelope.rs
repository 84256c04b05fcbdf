use vstd::prelude::*;
use vstd::utf8::encode_utf8;

use crate::query::CryptoPriceResponse;

verus! {

/// The scope tag that marks an envelope as a processed price attestation.
pub const PROCESS_DATA_SCOPE: u8 = 0;

/// The low `width` bytes of `n`, least significant first.
pub open spec fn le_bytes(n: nat, width: nat) -> Seq<u8>
    decreases width,
{
    if width == 0 {
        seq![]
    } else {
        seq![(n % 256) as u8] + le_bytes(n / 256, (width - 1) as nat)
    }
}

/// `n` in unsigned LEB128: seven bits a byte, least significant first, the high
/// bit set on every byte but the last.
pub open spec fn uleb128(n: nat) -> Seq<u8>
    decreases n,
{
    if n < 128 {
        seq![n as u8]
    } else {
        seq![(n % 128 + 128) as u8] + uleb128(n / 128)
    }
}

/// A string as its UTF-8 length in LEB128, then its UTF-8 bytes.
pub open spec fn string_field(s: Seq<char>) -> Seq<u8> {
    uleb128(encode_utf8(s).len()) + encode_utf8(s)
}

/// The bytes that get signed: the scope tag, the timestamp, then the attestation's
/// fields in order, integers as eight bytes little-endian.
pub open spec fn envelope_bytes(scope: u8, timestamp_ms: u64, resp: CryptoPriceResponse) -> Seq<u8> {
    seq![scope] + le_bytes(timestamp_ms as nat, 8) + le_bytes(resp.kind as nat, 8) + string_field(
        resp.date@,
    ) + string_field(resp.coin@) + le_bytes(resp.comparator as nat, 8) + le_bytes(
        resp.price as nat,
        8,
    ) + le_bytes(resp.result as nat, 8)
}

fn push_u64_le(out: &mut Vec<u8>, n: u64)
    ensures
        final(out)@ == old(out)@ + le_bytes(n as nat, 8),
{
    let ghost start = out@;
    let mut v: u64 = n;
    let mut i: usize = 0;
    while i < 8
        invariant
            i <= 8,
            out@ + le_bytes(v as nat, (8 - i) as nat) == start + le_bytes(n as nat, 8),
        decreases 8 - i,
    {
        let ghost before = out@;
        out.push((v % 256) as u8);
        assert(out@ + le_bytes((v / 256) as nat, (8 - i - 1) as nat) =~= before + le_bytes(
            v as nat,
            (8 - i) as nat,
        ));
        v = v / 256;
        i = i + 1;
    }
    assert(le_bytes(v as nat, 0) =~= seq![]);
    assert(out@ =~= out@ + le_bytes(v as nat, 0));
}

fn push_uleb128(out: &mut Vec<u8>, n: u64)
    ensures
        final(out)@ == old(out)@ + uleb128(n as nat),
{
    let ghost start = out@;
    let mut v: u64 = n;
    loop
        invariant_except_break
            out@ + uleb128(v as nat) == start + uleb128(n as nat),
        ensures
            out@ == start + uleb128(n as nat),
        decreases v,
    {
        let ghost before = out@;
        if v < 128 {
            out.push(v as u8);
            assert(out@ =~= before + uleb128(v as nat));
            break;
        }
        out.push((v % 128 + 128) as u8);
        assert(out@ + uleb128((v / 128) as nat) =~= before + uleb128(v as nat));
        v = v / 128;
    }
}

fn push_string_field(out: &mut Vec<u8>, s: &str)
    ensures
        final(out)@ == old(out)@ + string_field(s@),
{
    let bytes = s.as_bytes();
    push_uleb128(out, bytes.len() as u64);
    let ghost mid = out@;
    let mut i: usize = 0;
    while i < bytes.len()
        invariant
            i <= bytes@.len(),
            out@ == mid + bytes@.subrange(0, i as int),
        decreases bytes@.len() - i,
    {
        out.push(bytes[i]);
        assert(bytes@.subrange(0, i + 1) =~= bytes@.subrange(0, i as int).push(bytes@[i as int]));
        i = i + 1;
    }
    assert(bytes@.subrange(0, bytes@.len() as int) =~= bytes@);
}

/// Lays out the envelope of an attestation: exactly `envelope_bytes`.
pub fn signing_payload(scope: u8, timestamp_ms: u64, resp: &CryptoPriceResponse) -> (r: Vec<u8>)
    ensures
        r@ == envelope_bytes(scope, timestamp_ms, *resp),
{
    let mut out: Vec<u8> = Vec::new();
    out.push(scope);
    push_u64_le(&mut out, timestamp_ms);
    push_u64_le(&mut out, resp.kind);
    push_string_field(&mut out, resp.date.as_str());
    push_string_field(&mut out, resp.coin.as_str());
    push_u64_le(&mut out, resp.comparator);
    push_u64_le(&mut out, resp.price);
    push_u64_le(&mut out, resp.result);
    assert(out@ =~= envelope_bytes(scope, timestamp_ms, *resp));
    out
}

/// The envelope depends on the scope tag, the timestamp and the attestation's
/// field values alone: the same triple always gives the same bytes.
pub proof fn lemma_envelope_deterministic(
    scope: u8,
    timestamp_ms: u64,
    a: CryptoPriceResponse,
    b: CryptoPriceResponse,
)
    requires
        a.kind == b.kind,
        a.date@ == b.date@,
        a.coin@ == b.coin@,
        a.comparator == b.comparator,
        a.price == b.price,
        a.result == b.result,
    ensures
        envelope_bytes(scope, timestamp_ms, a) == envelope_bytes(scope, timestamp_ms, b),
{
}

} // verus!

//! Length-delimited framing of encoded messages, as prost frames them: a
//! varint holding the payload's length, then the payload.
use prost::encoding::{decode_varint, encode_varint};
use prost::DecodeError;
use vstd::prelude::*;

verus! {

/// prost's decoding error. Verus sees nothing inside it.
#[verifier::external_type_specification]
#[verifier::external_body]
pub struct ExDecodeError(prost::DecodeError);

/// The LEB128 encoding of `value`: seven bits per byte, lowest bits first,
/// the high bit set on every byte but the last.
pub open spec fn varint_bytes(value: nat) -> Seq<u8>
    decreases value,
{
    if value < 128 {
        seq![value as u8]
    } else {
        seq![(value % 128 + 128) as u8] + varint_bytes(value / 128)
    }
}

/// The varint that starts at index `i` of `bytes`, read as prost reads one:
/// its value and how many bytes it takes. Reading fails when the bytes run
/// out, when ten bytes all carry the continuation bit, or when a tenth byte
/// holds more than the one bit left of a `u64`.
pub open spec fn varint_at(bytes: Seq<u8>, i: nat) -> Option<(nat, nat)>
    decreases 10 - i,
{
    if i >= 10 || i >= bytes.len() {
        None
    } else if bytes[i as int] < 128 {
        if i == 9 && bytes[i as int] >= 2 {
            None
        } else {
            Some((bytes[i as int] as nat, 1))
        }
    } else {
        match varint_at(bytes, i + 1) {
            None => None,
            Some((w, n)) => Some(((bytes[i as int] - 128) as nat + 128 * w, n + 1)),
        }
    }
}

/// Calls `prost::encoding::encode_varint(value, buf)`, which appends the
/// LEB128 encoding of `value` to `buf`. `requires` keeps the vector below
/// the size at which a push would panic.
#[verifier::external_body]
fn put_varint(value: u64, buf: &mut Vec<u8>)
    requires
        old(buf)@.len() + 10 <= isize::MAX,
    ensures
        final(buf)@ == old(buf)@ + varint_bytes(value as nat),
{
    encode_varint(value, buf)
}

/// Calls `prost::encoding::decode_varint` on `bytes` and returns the value
/// with the bytes after it. It succeeds exactly when `varint_at(bytes, 0)`
/// reads a varint, with that value, consuming those bytes.
#[verifier::external_body]
fn take_varint(bytes: &[u8]) -> (r: Result<(u64, &[u8]), DecodeError>)
    ensures
        r is Ok <==> varint_at(bytes@, 0) is Some,
        r is Ok ==> r->Ok_0.0 == varint_at(bytes@, 0).unwrap().0 && r->Ok_0.1@ == bytes@.skip(
            varint_at(bytes@, 0).unwrap().1 as int,
        ),
{
    let mut rest = bytes;
    let value = decode_varint(&mut rest)?;
    Ok((value, rest))
}

/// 128 to the power `i`.
pub open spec fn pow128(i: nat) -> nat
    decreases i,
{
    if i == 0 {
        1
    } else {
        128 * pow128((i - 1) as nat)
    }
}

proof fn lemma_pow128_facts(i: nat)
    requires
        i <= 9,
    ensures
        1 <= pow128(i) <= pow128(9),
        pow128(9) == 0x8000_0000_0000_0000,
    decreases 9 - i,
{
    reveal_with_fuel(pow128, 10);
    if i < 9 {
        lemma_pow128_facts(i + 1);
        assert(pow128(i + 1) == 128 * pow128(i));
    }
}

/// A varint read at index `i` has `(value + 1) * 128^i <= 2^64` and
/// takes between one byte and the ten minus `i` left.
proof fn lemma_varint_at_bounded(bytes: Seq<u8>, i: nat)
    requires
        varint_at(bytes, i) is Some,
    ensures
        (varint_at(bytes, i).unwrap().0 + 1) * pow128(i) <= 0x1_0000_0000_0000_0000,
        1 <= varint_at(bytes, i).unwrap().1 <= 10 - i,
    decreases 10 - i,
{
    lemma_pow128_facts(i);
    let b = bytes[i as int] as nat;
    let p = pow128(i);
    if b < 128 {
        if i == 9 {
            assert((b + 1) * p <= 0x1_0000_0000_0000_0000) by (nonlinear_arith)
                requires
                    b < 2,
                    p == 0x8000_0000_0000_0000,
            ;
        } else {
            lemma_pow128_facts(i + 1);
            assert(pow128(i + 1) == 128 * p);
            assert((b + 1) * p <= 128 * p) by (nonlinear_arith)
                requires
                    b < 128,
                    p >= 1,
            ;
        }
    } else {
        lemma_varint_at_bounded(bytes, i + 1);
        let w = varint_at(bytes, i + 1).unwrap().0;
        assert(pow128(i + 1) == 128 * p);
        assert((((b - 128) as nat + 128 * w) + 1) * p <= (w + 1) * (128 * p)) by (nonlinear_arith)
            requires
                128 <= b < 256,
                p >= 1,
        ;
    }
}

/// Every value prost reads from a varint fits in a `u64`, and a varint
/// takes one to ten bytes.
pub proof fn lemma_varint_fits_u64(bytes: Seq<u8>)
    requires
        varint_at(bytes, 0) is Some,
    ensures
        varint_at(bytes, 0).unwrap().0 <= u64::MAX,
        1 <= varint_at(bytes, 0).unwrap().1 <= 10,
{
    lemma_varint_at_bounded(bytes, 0);
    assert(pow128(0) == 1);
    let v = varint_at(bytes, 0).unwrap().0;
    assert((v + 1) * pow128(0) == v + 1);
}

/// Reading back an encoding placed at index `i` gives the value and the
/// encoding's length, as long as the value fits in what is left of a `u64`.
proof fn lemma_varint_roundtrip_at(v: nat, s: Seq<u8>, i: nat)
    requires
        i < 10,
        v * pow128(i) <= u64::MAX,
        i + varint_bytes(v).len() <= s.len(),
        s.subrange(i as int, (i + varint_bytes(v).len()) as int) == varint_bytes(v),
    ensures
        varint_at(s, i) == Some((v, varint_bytes(v).len())),
    decreases v,
{
    lemma_pow128_facts(i);
    let p = pow128(i);
    let enc = varint_bytes(v);
    assert(s[i as int] == enc[0]);
    if v < 128 {
        if i == 9 {
            assert(v < 2) by (nonlinear_arith)
                requires
                    v * p <= u64::MAX,
                    p == 0x8000_0000_0000_0000,
            ;
        }
    } else {
        let w = v / 128;
        assert(v == 128 * w + v % 128) by (nonlinear_arith)
            requires
                w == v / 128,
        ;
        assert(i < 9) by {
            if i == 9 {
                assert(v * p >= 128 * p) by (nonlinear_arith)
                    requires
                        v >= 128,
                        p >= 1,
                ;
            }
        }
        lemma_pow128_facts(i + 1);
        assert(pow128(i + 1) == 128 * p);
        assert(w * (128 * p) <= v * p) by (nonlinear_arith)
            requires
                v == 128 * w + v % 128,
                v % 128 >= 0,
                p >= 1,
        ;
        let rest = varint_bytes(w);
        assert(enc == seq![(v % 128 + 128) as u8] + rest);
        assert(s.subrange((i + 1) as int, (i + 1 + rest.len()) as int) =~= rest) by {
            assert forall|k: int| 0 <= k < rest.len() implies s.subrange(
                (i + 1) as int,
                (i + 1 + rest.len()) as int,
            )[k] == rest[k] by {
                assert(s[i + 1 + k] == enc[k + 1]);
            }
        }
        lemma_varint_roundtrip_at(w, s, i + 1);
    }
}

/// Reading a varint at the start of its own encoding, followed by
/// anything, gives back the value and the encoding's length.
pub proof fn lemma_varint_roundtrip(v: u64, rest: Seq<u8>)
    ensures
        varint_at(varint_bytes(v as nat) + rest, 0) == Some((v as nat, varint_bytes(v as nat).len())),
{
    let enc = varint_bytes(v as nat);
    let s = enc + rest;
    assert(pow128(0) == 1);
    assert(v as nat * pow128(0) == v as nat);
    assert(s.subrange(0, enc.len() as int) =~= enc);
    lemma_varint_roundtrip_at(v as nat, s, 0);
}

/// Why a frame could not be opened.
#[derive(Debug, Clone, Copy, PartialEq, Eq)]
pub enum FrameError {
    /// The frame does not start with a valid varint length.
    BadLength,
    /// The frame holds fewer bytes than its length announces.
    Truncated,
}

/// `payload` preceded by its length as a varint.
pub open spec fn framed(payload: Seq<u8>) -> Seq<u8> {
    varint_bytes(payload.len()) + payload
}

/// The payload of announced length `length` at the start of `rest`; bytes
/// beyond it are ignored.
pub open spec fn payload_of(length: nat, rest: Seq<u8>) -> Result<Seq<u8>, FrameError> {
    if length <= rest.len() {
        Ok(rest.take(length as int))
    } else {
        Err(FrameError::Truncated)
    }
}

/// What opening `frame` gives: `BadLength` when no varint length can be read
/// at its start, `Truncated` when fewer bytes follow than the length
/// announces, and otherwise the announced number of bytes after the length.
pub open spec fn unframed(frame: Seq<u8>) -> Result<Seq<u8>, FrameError> {
    match varint_at(frame, 0) {
        None => Err(FrameError::BadLength),
        Some((length, n)) => payload_of(length, frame.skip(n as int)),
    }
}

/// A result carrying a vector, with the vector seen as a sequence.
pub open spec fn bytes_result(r: Result<Vec<u8>, FrameError>) -> Result<Seq<u8>, FrameError> {
    match r {
        Ok(v) => Ok(v@),
        Err(e) => Err(e),
    }
}

/// Frames `payload`: its length as a varint, then the payload itself.
pub fn frame(payload: &[u8]) -> (out: Vec<u8>)
    requires
        payload@.len() + 10 <= isize::MAX,
    ensures
        out@ == framed(payload@),
{
    let mut out: Vec<u8> = Vec::new();
    put_varint(payload.len() as u64, &mut out);
    let ghost prefix = out@;
    let n = payload.len();
    for i in 0..n
        invariant
            n == payload@.len(),
            prefix == varint_bytes(payload@.len()),
            out@ == prefix + payload@.take(i as int),
    {
        out.push(payload[i]);
        assert(payload@.take(i + 1) == payload@.take(i as int).push(payload@[i as int]));
    }
    assert(payload@.take(n as int) == payload@);
    out
}

/// The first `length` bytes of `rest`, or `Truncated` when `rest` is
/// shorter.
pub fn payload_after(length: u64, rest: &[u8]) -> (r: Result<Vec<u8>, FrameError>)
    ensures
        bytes_result(r) == payload_of(length as nat, rest@),
{
    if length > rest.len() as u64 {
        return Err(FrameError::Truncated);
    }
    let n = length as usize;
    let mut out: Vec<u8> = Vec::new();
    for i in 0..n
        invariant
            n == length,
            n <= rest@.len(),
            out@ == rest@.take(i as int),
    {
        out.push(rest[i]);
        assert(rest@.take(i + 1) == rest@.take(i as int).push(rest@[i as int]));
    }
    Ok(out)
}

/// Opens a frame: reads the varint length, then returns that many bytes
/// after it, as `unframed` describes.
pub fn unframe(frame: &[u8]) -> (r: Result<Vec<u8>, FrameError>)
    ensures
        bytes_result(r) == unframed(frame@),
{
    match take_varint(frame) {
        Err(_) => Err(FrameError::BadLength),
        Ok((length, rest)) => payload_after(length, rest),
    }
}

/// Opening a frame gives back what was framed.
pub proof fn lemma_unframe_inverts_frame(payload: Seq<u8>)
    requires
        payload.len() <= u64::MAX,
    ensures
        unframed(framed(payload)) == Ok::<Seq<u8>, FrameError>(payload),
{
    lemma_varint_roundtrip(payload.len() as u64, payload);
    let prefix = varint_bytes(payload.len());
    assert(framed(payload).skip(prefix.len() as int) =~= payload);
    assert(payload.take(payload.len() as int) =~= payload);
}

/// Bytes after a frame do not change what opening it gives.
pub proof fn lemma_unframe_ignores_trailing_bytes(payload: Seq<u8>, extra: Seq<u8>)
    requires
        payload.len() <= u64::MAX,
    ensures
        unframed(framed(payload) + extra) == Ok::<Seq<u8>, FrameError>(payload),
{
    lemma_varint_roundtrip(payload.len() as u64, payload + extra);
    let prefix = varint_bytes(payload.len());
    assert(framed(payload) + extra =~= prefix + (payload + extra));
    assert((prefix + (payload + extra)).skip(prefix.len() as int) =~= payload + extra);
    assert((payload + extra).take(payload.len() as int) =~= payload);
}

/// A frame with nothing in it, or one whose every byte carries the
/// continuation bit, has no readable length.
pub proof fn lemma_unframe_without_length(frame: Seq<u8>)
    requires
        forall|k: int| 0 <= k < frame.len() ==> #[trigger] frame[k] >= 128,
    ensures
        unframed(frame) == Err::<Seq<u8>, FrameError>(FrameError::BadLength),
{
    lemma_no_terminal_byte(frame, 0);
}

proof fn lemma_no_terminal_byte(frame: Seq<u8>, i: nat)
    requires
        forall|k: int| 0 <= k < frame.len() ==> #[trigger] frame[k] >= 128,
    ensures
        varint_at(frame, i) is None,
    decreases 10 - i,
{
    if i < 10 && i < frame.len() {
        lemma_no_terminal_byte(frame, i + 1);
    }
}

} // verus!

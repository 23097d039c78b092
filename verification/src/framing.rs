//! MessagePack transport framing: every hub message travels behind a
//! base-128 length prefix of at most five bytes.

use vstd::prelude::*;
use vstd::slice::slice_subrange;
use crate::error::Result;
use crate::error::SignalRError;

verus! {

/// Largest payload length a frame may announce.
pub const MESSAGEPACK_MAX_FRAME_LENGTH: usize = 0x7fff_ffff;

/// Largest number of bytes a length prefix may occupy.
pub const MESSAGEPACK_MAX_PREFIX_BYTES: usize = 5;

/// `128` raised to `k`.
pub open spec fn pow128(k: nat) -> nat
    decreases k,
{
    if k == 0 {
        1
    } else {
        128 * pow128((k - 1) as nat)
    }
}

/// The number a base-128 prefix denotes: the low seven bits of each byte,
/// least significant group first.
pub open spec fn varint_value(bytes: Seq<u8>) -> nat
    decreases bytes.len(),
{
    if bytes.len() == 0 {
        0
    } else {
        (bytes[0] % 128) as nat + 128 * varint_value(bytes.drop_first())
    }
}

/// The length of the prefix that ends at the first byte whose high bit is
/// clear, if there is such a byte.
pub open spec fn varint_prefix_len(bytes: Seq<u8>) -> Option<nat>
    decreases bytes.len(),
{
    if bytes.len() == 0 {
        None
    } else if bytes[0] < 128 {
        Some(1)
    } else {
        match varint_prefix_len(bytes.drop_first()) {
            Some(k) => Some(k + 1),
            None => None,
        }
    }
}

/// The base-128 encoding of `n`: seven bits per byte, the high bit set on
/// every byte but the last.
pub open spec fn varint_encoding(n: nat) -> Seq<u8>
    decreases n,
{
    if n < 128 {
        seq![n as u8]
    } else {
        seq![(n % 128 + 128) as u8] + varint_encoding(n / 128)
    }
}

/// What reading a length prefix from the front of `data` gives: the length
/// and the prefix size, or the text of the protocol error.
pub open spec fn spec_read_varint_length(data: Seq<u8>) -> core::result::Result<(nat, nat), Seq<char>> {
    match varint_prefix_len(data) {
        Some(k) if k <= 5 => {
            let n = varint_value(data.take(k as int));
            if n > MESSAGEPACK_MAX_FRAME_LENGTH {
                Err("MessagePack frame length exceeds maximum"@)
            } else {
                Ok((n, k))
            }
        },
        _ => {
            if data.len() < 5 {
                Err("Incomplete MessagePack frame length prefix"@)
            } else {
                Err("MessagePack frame length prefix is too large"@)
            }
        },
    }
}

/// The frame for `payload`: its length prefix followed by the payload.
pub open spec fn spec_frame(payload: Seq<u8>) -> Seq<u8> {
    varint_encoding(payload.len()) + payload
}

/// The frames of a sequence of payloads, one after another.
pub open spec fn spec_frames(payloads: Seq<Seq<u8>>) -> Seq<u8>
    decreases payloads.len(),
{
    if payloads.len() == 0 {
        seq![]
    } else {
        spec_frame(payloads[0]) + spec_frames(payloads.drop_first())
    }
}

/// Splitting `data` into frame payloads, starting at byte `offset`.
pub open spec fn spec_split_frames_at(data: Seq<u8>, offset: nat) -> core::result::Result<
    Seq<Seq<u8>>,
    Seq<char>,
>
    decreases data.len() - offset,
{
    if offset >= data.len() {
        Ok(seq![])
    } else {
        match spec_read_varint_length(data.skip(offset as int)) {
            Err(m) => Err(m),
            Ok((len, used)) => {
                let start = offset + used;
                let end = start + len;
                if end > usize::MAX {
                    Err("MessagePack frame length overflow"@)
                } else if end > data.len() {
                    Err("MessagePack frame length exceeds available data"@)
                } else {
                    proof {
                        lemma_read_varint_consumes(data.skip(offset as int));
                    }
                    match spec_split_frames_at(data, end) {
                        Ok(rest) => Ok(seq![data.subrange(start as int, end as int)] + rest),
                        Err(m) => Err(m),
                    }
                }
            },
        }
    }
}

/// Splitting a whole buffer into frame payloads.
pub open spec fn spec_split_frames(data: Seq<u8>) -> core::result::Result<Seq<Seq<u8>>, Seq<char>> {
    spec_split_frames_at(data, 0)
}

/// Views of a sequence of byte slices.
pub open spec fn slice_views(frames: Seq<&[u8]>) -> Seq<Seq<u8>> {
    frames.map_values(|f: &[u8]| f@)
}

proof fn lemma_prefix_len_bounds(bytes: Seq<u8>)
    ensures
        varint_prefix_len(bytes) matches Some(k) ==> 1 <= k <= bytes.len() && bytes[k - 1] < 128
            && (forall|j: int| 0 <= j < k - 1 ==> bytes[j] >= 128),
        varint_prefix_len(bytes) is None ==> forall|j: int| 0 <= j < bytes.len() ==> bytes[j] >= 128,
    decreases bytes.len(),
{
    if bytes.len() > 0 && bytes[0] >= 128 {
        lemma_prefix_len_bounds(bytes.drop_first());
        let rest = bytes.drop_first();
        assert forall|j: int| 1 <= j < bytes.len() implies bytes[j] == rest[j - 1] by {}
    }
}

/// Reading a prefix, when it succeeds, consumes at least one byte.
pub proof fn lemma_read_varint_consumes(data: Seq<u8>)
    ensures
        spec_read_varint_length(data) matches Ok((n, k)) ==> 1 <= k <= 5 && k <= data.len(),
{
    lemma_prefix_len_bounds(data);
}

proof fn lemma_prefix_len_at(bytes: Seq<u8>, i: int)
    requires
        0 <= i < bytes.len(),
        bytes[i] < 128,
        forall|j: int| 0 <= j < i ==> bytes[j] >= 128,
    ensures
        varint_prefix_len(bytes) == Some((i + 1) as nat),
    decreases i,
{
    if i > 0 {
        let rest = bytes.drop_first();
        assert forall|j: int| 0 <= j < i - 1 implies rest[j] >= 128 by {
            assert(rest[j] == bytes[j + 1]);
        }
        lemma_prefix_len_at(rest, i - 1);
    }
}

proof fn lemma_prefix_len_none_within(bytes: Seq<u8>, m: int)
    requires
        0 <= m <= bytes.len(),
        forall|j: int| 0 <= j < m ==> bytes[j] >= 128,
    ensures
        varint_prefix_len(bytes) matches Some(k) ==> k > m && k <= bytes.len(),
{
    lemma_prefix_len_bounds(bytes);
}

proof fn lemma_varint_value_push(s: Seq<u8>, b: u8)
    ensures
        varint_value(s.push(b)) == varint_value(s) + (b % 128) as nat * pow128(s.len()),
    decreases s.len(),
{
    if s.len() == 0 {
        assert(s.push(b).drop_first() =~= Seq::<u8>::empty());
        assert(s.push(b)[0] == b);
        assert(pow128(0) == 1);
        assert(varint_value(Seq::<u8>::empty()) == 0);
    } else {
        let t = s.drop_first();
        lemma_varint_value_push(t, b);
        assert(s.push(b).drop_first() =~= t.push(b));
        assert(s.push(b)[0] == s[0]);
        let c = (b % 128) as nat;
        let p = pow128(t.len());
        assert(pow128(s.len()) == 128 * p);
        let vt = varint_value(t);
        assert(varint_value(s.push(b)) == (s[0] % 128) as nat + 128 * (vt + c * p));
        assert(varint_value(s) == (s[0] % 128) as nat + 128 * vt);
        assert(128 * (vt + c * p) == 128 * vt + c * (128 * p)) by (nonlinear_arith);
    }
}

proof fn lemma_varint_value_bound(s: Seq<u8>)
    ensures
        varint_value(s) < pow128(s.len()),
    decreases s.len(),
{
    if s.len() > 0 {
        lemma_varint_value_bound(s.drop_first());
        let v = varint_value(s.drop_first());
        let p = pow128(s.drop_first().len());
        let b = (s[0] % 128) as nat;
        assert(b + 128 * v < 128 * p) by (nonlinear_arith)
            requires
                b < 128,
                v < p,
        ;
    }
}

proof fn lemma_pow128_values()
    ensures
        pow128(0) == 1,
        pow128(1) == 128,
        pow128(2) == 16384,
        pow128(3) == 2097152,
        pow128(4) == 268435456,
        pow128(5) == 34359738368,
{
    reveal_with_fuel(pow128, 6);
}

/// Reads a base-128 length prefix from the front of `data`, returning the
/// announced payload length and the number of prefix bytes.
pub fn read_varint_length(data: &[u8]) -> (r: Result<(usize, usize)>)
    ensures
        match r {
            Ok((n, k)) => spec_read_varint_length(data@) == Ok::<(nat, nat), Seq<char>>(
                (n as nat, k as nat),
            ),
            Err(SignalRError::Protocol(m)) => spec_read_varint_length(data@) == Err::<
                (nat, nat),
                Seq<char>,
            >(m@),
            Err(_) => false,
        },
{
    let mut length: u64 = 0;
    let mut scale: u64 = 1;
    let mut index: usize = 0;
    proof {
        lemma_pow128_values();
        assert(data@.take(0) =~= Seq::<u8>::empty());
    }
    while index < data.len() && index < MESSAGEPACK_MAX_PREFIX_BYTES
        invariant
            index <= MESSAGEPACK_MAX_PREFIX_BYTES,
            index <= data.len(),
            length as nat == varint_value(data@.take(index as int)),
            scale as nat == pow128(index as nat),
            forall|j: int| 0 <= j < index ==> data@[j] >= 128,
        decreases data.len() - index,
    {
        let byte = data[index];
        proof {
            lemma_pow128_values();
            lemma_varint_value_bound(data@.take(index as int));
            lemma_varint_value_push(data@.take(index as int), byte);
            assert(data@.take(index as int).push(byte) =~= data@.take(index + 1));
            assert((byte % 128) as nat * pow128(index as nat) <= 127 * pow128(index as nat))
                by (nonlinear_arith);
        }
        length = length + (byte % 128) as u64 * scale;
        if byte < 0x80 {
            proof {
                lemma_prefix_len_at(data@, index as int);
            }
            if length > MESSAGEPACK_MAX_FRAME_LENGTH as u64 {
                return Err(
                    SignalRError::Protocol(
                        String::from_str("MessagePack frame length exceeds maximum"),
                    ),
                );
            }
            return Ok((length as usize, index + 1));
        }
        scale = scale * 128;
        index = index + 1;
    }
    proof {
        lemma_prefix_len_none_within(data@, index as int);
    }
    if data.len() < MESSAGEPACK_MAX_PREFIX_BYTES {
        return Err(
            SignalRError::Protocol(String::from_str("Incomplete MessagePack frame length prefix")),
        );
    }
    Err(SignalRError::Protocol(String::from_str("MessagePack frame length prefix is too large")))
}


/// Appends the base-128 prefix for `length` to `output`.
pub fn write_varint_length(length: usize, output: &mut Vec<u8>) -> (r: Result<()>)
    ensures
        length > MESSAGEPACK_MAX_FRAME_LENGTH ==> final(output)@ == old(output)@ && match r {
            Err(SignalRError::Protocol(m)) => m@ == "MessagePack payload exceeds maximum frame length"@,
            _ => false,
        },
        length <= MESSAGEPACK_MAX_FRAME_LENGTH ==> r is Ok && final(output)@ == old(output)@
            + varint_encoding(length as nat),
{
    if length > MESSAGEPACK_MAX_FRAME_LENGTH {
        return Err(
            SignalRError::Protocol(
                String::from_str("MessagePack payload exceeds maximum frame length"),
            ),
        );
    }
    let ghost start = output@;
    let mut rest = length;
    loop
        invariant
            length <= MESSAGEPACK_MAX_FRAME_LENGTH,
            start == old(output)@,
            start + varint_encoding(length as nat) == output@ + varint_encoding(rest as nat),
        decreases rest,
    {
        let mut byte = (rest % 128) as u8;
        let next = rest / 128;
        if next > 0 {
            byte = byte + 128;
        }
        proof {
            if next > 0 {
                assert(varint_encoding(rest as nat) == seq![byte] + varint_encoding(next as nat));
            } else {
                assert(varint_encoding(rest as nat) == seq![byte]);
            }
        }
        output.push(byte);
        rest = next;
        if rest == 0 {
            assert(output@ =~= start + varint_encoding(length as nat));
            return Ok(());
        }
        assert(output@ + varint_encoding(rest as nat) =~= start + varint_encoding(length as nat));
    }
}

/// Wraps a MessagePack body in a frame: its length prefix, then the body.
pub fn frame_messagepack_payload(payload: &[u8]) -> (r: Result<Vec<u8>>)
    ensures
        payload@.len() > MESSAGEPACK_MAX_FRAME_LENGTH ==> match r {
            Err(SignalRError::Protocol(m)) => m@ == "MessagePack payload exceeds maximum frame length"@,
            _ => false,
        },
        payload@.len() <= MESSAGEPACK_MAX_FRAME_LENGTH ==> match r {
            Ok(framed) => framed@ == spec_frame(payload@),
            Err(_) => false,
        },
{
    if payload.len() > MESSAGEPACK_MAX_FRAME_LENGTH {
        return Err(
            SignalRError::Protocol(
                String::from_str("MessagePack payload exceeds maximum frame length"),
            ),
        );
    }
    let mut framed: Vec<u8> = Vec::with_capacity(MESSAGEPACK_MAX_PREFIX_BYTES + payload.len());
    let written = write_varint_length(payload.len(), &mut framed);
    if written.is_err() {
        return Err(
            SignalRError::Protocol(
                String::from_str("MessagePack payload exceeds maximum frame length"),
            ),
        );
    }
    let ghost prefix = framed@;
    let mut i: usize = 0;
    while i < payload.len()
        invariant
            i <= payload@.len(),
            framed@ == prefix + payload@.take(i as int),
        decreases payload@.len() - i,
    {
        framed.push(payload[i]);
        i = i + 1;
        assert(framed@ =~= prefix + payload@.take(i as int));
    }
    assert(payload@.take(payload@.len() as int) =~= payload@);
    Ok(framed)
}

proof fn lemma_split_step(data: Seq<u8>, offset: nat)
    requires
        offset < data.len(),
    ensures
        spec_split_frames_at(data, offset) == match spec_read_varint_length(data.skip(offset as int)) {
            Err(m) => Err(m),
            Ok((len, used)) => {
                let start = offset + used;
                let end = start + len;
                if end > usize::MAX {
                    Err("MessagePack frame length overflow"@)
                } else if end > data.len() {
                    Err("MessagePack frame length exceeds available data"@)
                } else {
                    match spec_split_frames_at(data, end) {
                        Ok(rest) => Ok(seq![data.subrange(start as int, end as int)] + rest),
                        Err(m) => Err(m),
                    }
                }
            },
        },
{
}

/// Splits a buffer of back-to-back frames into their payloads.
pub fn split_messagepack_frames(data: &[u8]) -> (r: Result<Vec<&[u8]>>)
    ensures
        match r {
            Ok(frames) => spec_split_frames(data@) == Ok::<Seq<Seq<u8>>, Seq<char>>(
                slice_views(frames@),
            ),
            Err(SignalRError::Protocol(m)) => spec_split_frames(data@) == Err::<
                Seq<Seq<u8>>,
                Seq<char>,
            >(m@),
            Err(_) => false,
        },
{
    let mut frames: Vec<&[u8]> = Vec::new();
    let mut offset: usize = 0;
    while offset < data.len()
        invariant
            offset <= data@.len(),
            spec_split_frames(data@) == match spec_split_frames_at(data@, offset as nat) {
                Ok(rest) => Ok(slice_views(frames@) + rest),
                Err(m) => Err::<Seq<Seq<u8>>, Seq<char>>(m),
            },
        decreases data@.len() - offset,
    {
        proof {
            lemma_split_step(data@, offset as nat);
        }
        let rest = slice_subrange(data, offset, data.len());
        assert(rest@ == data@.skip(offset as int));
        let (length, prefix_len) = match read_varint_length(rest) {
            Ok(pair) => pair,
            Err(e) => {
                return Err(e);
            },
        };
        proof {
            lemma_read_varint_consumes(rest@);
        }
        let start = offset + prefix_len;
        let end = match start.checked_add(length) {
            Some(end) => end,
            None => {
                return Err(
                    SignalRError::Protocol(String::from_str("MessagePack frame length overflow")),
                );
            },
        };
        if end > data.len() {
            return Err(
                SignalRError::Protocol(
                    String::from_str("MessagePack frame length exceeds available data"),
                ),
            );
        }
        let frame = slice_subrange(data, start, end);
        let ghost before = frames@;
        frames.push(frame);
        proof {
            assert(slice_views(frames@) =~= slice_views(before).push(frame@));
            match spec_split_frames_at(data@, end as nat) {
                Ok(tail) => {
                    assert(slice_views(before) + (seq![frame@] + tail) =~= slice_views(frames@)
                        + tail);
                },
                Err(_) => {},
            }
        }
        offset = end;
    }
    assert(slice_views(frames@) + Seq::<Seq<u8>>::empty() =~= slice_views(frames@));
    Ok(frames)
}


proof fn lemma_encoding_shape(n: nat, rest: Seq<u8>)
    ensures
        varint_prefix_len(varint_encoding(n) + rest) == Some(varint_encoding(n).len()),
        varint_value(varint_encoding(n)) == n,
        varint_encoding(n).len() >= 1,
    decreases n,
{
    let e = varint_encoding(n);
    if n < 128 {
        assert((e + rest)[0] == n as u8);
        assert(e.drop_first() =~= Seq::<u8>::empty());
        assert(varint_value(e.drop_first()) == 0);
        assert(e[0] == n as u8);
        assert(varint_value(e) == (e[0] % 128) as nat + 128 * varint_value(e.drop_first()));
    } else {
        let tail = varint_encoding(n / 128);
        lemma_encoding_shape(n / 128, rest);
        assert(e == seq![(n % 128 + 128) as u8] + tail);
        assert((e + rest).drop_first() =~= tail + rest);
        assert((e + rest)[0] == (n % 128 + 128) as u8);
        assert(e.drop_first() =~= tail);
        assert(((n % 128 + 128) as u8) % 128 == n % 128);
        assert(varint_value(e) == (e[0] % 128) as nat + 128 * varint_value(e.drop_first()));
        assert(varint_value(e) == n % 128 + 128 * (n / 128));
    }
}

proof fn lemma_encoding_len(n: nat, k: nat)
    requires
        n < pow128(k),
        k >= 1,
    ensures
        varint_encoding(n).len() <= k,
    decreases n,
{
    if n >= 128 {
        assert(pow128(k) == 128 * pow128((k - 1) as nat));
        if k == 1 {
            assert(pow128(0) == 1);
        } else {
            assert(n / 128 < pow128((k - 1) as nat)) by (nonlinear_arith)
                requires
                    n < 128 * pow128((k - 1) as nat),
            ;
            lemma_encoding_len(n / 128, (k - 1) as nat);
        }
    }
}

/// Reading the prefix that `write_varint_length` writes gives back the
/// length and the prefix size, whatever bytes follow it.
pub proof fn law_varint_roundtrip(n: nat, rest: Seq<u8>)
    requires
        n <= MESSAGEPACK_MAX_FRAME_LENGTH,
    ensures
        varint_encoding(n).len() <= MESSAGEPACK_MAX_PREFIX_BYTES,
        spec_read_varint_length(varint_encoding(n) + rest) == Ok::<(nat, nat), Seq<char>>(
            (n, varint_encoding(n).len()),
        ),
{
    lemma_pow128_values();
    lemma_encoding_len(n, 5);
    lemma_encoding_shape(n, rest);
    let e = varint_encoding(n);
    assert((e + rest).take(e.len() as int) =~= e);
}

proof fn lemma_split_from(prefix: Seq<u8>, payloads: Seq<Seq<u8>>)
    requires
        forall|i: int| 0 <= i < payloads.len() ==> payloads[i].len() <= MESSAGEPACK_MAX_FRAME_LENGTH,
        prefix.len() + spec_frames(payloads).len() <= usize::MAX,
    ensures
        spec_split_frames_at(prefix + spec_frames(payloads), prefix.len()) == Ok::<
            Seq<Seq<u8>>,
            Seq<char>,
        >(payloads),
    decreases payloads.len(),
{
    let data = prefix + spec_frames(payloads);
    if payloads.len() == 0 {
        assert(data.len() == prefix.len());
        assert(payloads =~= Seq::<Seq<u8>>::empty());
    } else {
        let p = payloads[0];
        let rest = payloads.drop_first();
        let e = varint_encoding(p.len());
        let tail = spec_frames(rest);
        assert(spec_frames(payloads) == e + p + tail);
        assert(data.skip(prefix.len() as int) =~= e + (p + tail));
        law_varint_roundtrip(p.len(), p + tail);
        assert(e + (p + tail) =~= e + p + tail);
        let start = prefix.len() + e.len();
        let end = start + p.len();
        assert(data.subrange(start as int, end as int) =~= p);
        let prefix2 = prefix + e + p;
        assert(prefix2 + tail =~= data);
        assert forall|i: int| 0 <= i < rest.len() implies rest[i].len()
            <= MESSAGEPACK_MAX_FRAME_LENGTH by {
            assert(rest[i] == payloads[i + 1]);
        }
        lemma_split_from(prefix2, rest);
        lemma_split_step(data, prefix.len());
        assert(prefix2.len() == end);
        assert(end <= data.len());
        assert(spec_read_varint_length(data.skip(prefix.len() as int)) == Ok::<(nat, nat), Seq<char>>(
            (p.len(), e.len()),
        ));
        assert(spec_split_frames_at(data, end) == Ok::<Seq<Seq<u8>>, Seq<char>>(rest));
        assert(seq![p] + rest =~= payloads);
    }
}

/// Splitting a run of frames gives back exactly the payloads that were framed,
/// in order.
pub proof fn law_split_frames_inverts_framing(payloads: Seq<Seq<u8>>)
    requires
        forall|i: int| 0 <= i < payloads.len() ==> payloads[i].len() <= MESSAGEPACK_MAX_FRAME_LENGTH,
        spec_frames(payloads).len() <= usize::MAX,
    ensures
        spec_split_frames(spec_frames(payloads)) == Ok::<Seq<Seq<u8>>, Seq<char>>(payloads),
{
    lemma_split_from(Seq::<u8>::empty(), payloads);
    assert(Seq::<u8>::empty() + spec_frames(payloads) =~= spec_frames(payloads));
}

proof fn lemma_prefix_len_extends(s: Seq<u8>, t: Seq<u8>)
    requires
        varint_prefix_len(s) is Some,
    ensures
        varint_prefix_len(s + t) == varint_prefix_len(s),
    decreases s.len(),
{
    if s[0] >= 128 {
        assert((s + t).drop_first() =~= s.drop_first() + t);
        lemma_prefix_len_extends(s.drop_first(), t);
    }
}

/// A length prefix read from the front of `s` reads the same with more bytes
/// after `s`.
proof fn lemma_read_varint_extends(s: Seq<u8>, t: Seq<u8>)
    requires
        spec_read_varint_length(s) is Ok,
    ensures
        spec_read_varint_length(s + t) == spec_read_varint_length(s),
{
    lemma_prefix_len_extends(s, t);
    lemma_prefix_len_bounds(s);
    let k = varint_prefix_len(s)->Some_0;
    assert((s + t).take(k as int) =~= s.take(k as int));
}

/// The frames that split out of `a` from `offset` on come first when more
/// bytes follow `a`.
proof fn lemma_split_frames_before(a: Seq<u8>, b: Seq<u8>, offset: nat, fa: Seq<Seq<u8>>)
    requires
        offset <= a.len(),
        a.len() + b.len() <= usize::MAX,
        spec_split_frames_at(a, offset) == Ok::<Seq<Seq<u8>>, Seq<char>>(fa),
    ensures
        spec_split_frames_at(a + b, offset) == match spec_split_frames_at(a + b, a.len()) {
            Ok(rest) => Ok::<Seq<Seq<u8>>, Seq<char>>(fa + rest),
            Err(m) => Err(m),
        },
    decreases a.len() - offset,
{
    let data = a + b;
    if offset >= a.len() {
        assert(fa =~= Seq::<Seq<u8>>::empty());
        if let Ok(rest) = spec_split_frames_at(data, a.len()) {
            assert(fa + rest =~= rest);
        }
    } else {
        lemma_split_step(a, offset);
        lemma_split_step(data, offset);
        let s = a.skip(offset as int);
        assert(data.skip(offset as int) =~= s + b);
        lemma_read_varint_extends(s, b);
        let (len, used) = spec_read_varint_length(s)->Ok_0;
        let start = offset + used;
        let end = start + len;
        lemma_read_varint_consumes(s);
        let fa_rest = spec_split_frames_at(a, end)->Ok_0;
        assert(data.subrange(start as int, end as int) =~= a.subrange(start as int, end as int));
        lemma_split_frames_before(a, b, end, fa_rest);
        if let Ok(rest) = spec_split_frames_at(data, a.len()) {
            assert(seq![a.subrange(start as int, end as int)] + (fa_rest + rest) =~= fa + rest);
        }
    }
}

/// The frames of `b` split out of `a + b` past the end of `a` as they do
/// out of `b` alone.
proof fn lemma_split_frames_after(a: Seq<u8>, b: Seq<u8>, offset: nat, fb: Seq<Seq<u8>>)
    requires
        offset <= b.len(),
        a.len() + b.len() <= usize::MAX,
        spec_split_frames_at(b, offset) == Ok::<Seq<Seq<u8>>, Seq<char>>(fb),
    ensures
        spec_split_frames_at(a + b, a.len() + offset) == Ok::<Seq<Seq<u8>>, Seq<char>>(fb),
    decreases b.len() - offset,
{
    let data = a + b;
    if offset >= b.len() {
        assert(fb =~= Seq::<Seq<u8>>::empty());
    } else {
        lemma_split_step(b, offset);
        lemma_split_step(data, a.len() + offset);
        let s = b.skip(offset as int);
        assert(data.skip((a.len() + offset) as int) =~= s);
        let (len, used) = spec_read_varint_length(s)->Ok_0;
        let start = offset + used;
        let end = start + len;
        lemma_read_varint_consumes(s);
        let fb_rest = spec_split_frames_at(b, end)->Ok_0;
        assert(data.subrange((a.len() + start) as int, (a.len() + end) as int) =~= b.subrange(start as int, end as int));
        lemma_split_frames_after(a, b, end, fb_rest);
    }
}

/// Splitting two buffers of frames written one after the other gives the
/// frames of the first followed by those of the second.
pub proof fn law_split_frames_concatenate(a: Seq<u8>, b: Seq<u8>, fa: Seq<Seq<u8>>, fb: Seq<Seq<u8>>)
    requires
        spec_split_frames(a) == Ok::<Seq<Seq<u8>>, Seq<char>>(fa),
        spec_split_frames(b) == Ok::<Seq<Seq<u8>>, Seq<char>>(fb),
        a.len() + b.len() <= usize::MAX,
    ensures
        spec_split_frames(a + b) == Ok::<Seq<Seq<u8>>, Seq<char>>(fa + fb),
{
    lemma_split_frames_after(a, b, 0, fb);
    lemma_split_frames_before(a, b, 0, fa);
}

} // verus!

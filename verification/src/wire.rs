//! The binary encoding of message fields.
//!
//! Unsigned integers wider than a byte are written as little-endian base-128
//! varints: seven bits per byte, least significant group first, the high bit
//! set on every byte but the last. A `bool` is one byte, 0 or 1. A byte string
//! is its length as a varint followed by the bytes; a text is the byte string
//! of its UTF-8 form. A fingerprint is its 32 bytes and nothing else.
//!
//! Every reader is specified by a function on the whole input and a position,
//! so that the readers of a message compose by threading the position.

use vstd::prelude::*;
use vstd::slice::slice_subrange;
use vstd::utf8::*;

verus! {

/// Why a byte string is not the encoding of a message, or could not be
/// written.
#[derive(Debug, Clone, Copy, PartialEq, Eq, Structural)]
pub enum WireError {
    /// The input ends inside a field.
    UnexpectedEnd,
    /// A varint runs over the bytes allowed for its type, or its last byte
    /// holds bits that the type has no room for.
    BadVarint,
    /// A `bool` byte that is neither 0 nor 1.
    BadBool,
    /// A text that is not well-formed UTF-8.
    BadUtf8,
    /// A message tag that names no variant.
    UnknownVariant,
    /// The output buffer is too small for the encoding.
    BufferFull,
}

/// Length in bytes of a file fingerprint.
pub const HASH_LEN: usize = 32;

/// The varint of `n`.
pub open spec fn varint(n: nat) -> Seq<u8>
    decreases n,
{
    if n < 128 {
        seq![n as u8]
    } else {
        seq![(128 + n % 128) as u8] + varint(n / 128)
    }
}

/// The encoding of a `bool`.
pub open spec fn bool_byte(b: bool) -> Seq<u8> {
    seq![if b {
        1u8
    } else {
        0u8
    }]
}

/// The encoding of a byte string: its length, then its bytes.
pub open spec fn length_prefixed(b: Seq<u8>) -> Seq<u8> {
    varint(b.len()) + b
}

/// The encoding of a text: the byte string of its UTF-8 form.
pub open spec fn text(t: Seq<char>) -> Seq<u8> {
    length_prefixed(encode_utf8(t))
}

/// One more than the largest number that a varint reader accepts, when it
/// reads at most `width` bytes and lets the last of them be at most `last_max`.
pub open spec fn varint_limit(width: nat, last_max: u8) -> nat
    decreases width,
{
    if width == 0 {
        0
    } else if width == 1 {
        (last_max + 1) as nat
    } else {
        128 * varint_limit((width - 1) as nat, last_max)
    }
}

/// Reads a varint of at most `width` bytes at `pos`: the number and the
/// position behind it. The byte at the last allowed place must not continue
/// and must be at most `last_max`. Encodings with superfluous zero groups
/// are accepted.
pub open spec fn take_varint(s: Seq<u8>, pos: int, width: nat, last_max: u8) -> Result<
    (nat, int),
    WireError,
>
    decreases width,
{
    if width == 0 {
        Err(WireError::BadVarint)
    } else if pos < 0 || pos >= s.len() {
        Err(WireError::UnexpectedEnd)
    } else if s[pos] < 128 {
        if width == 1 && s[pos] > last_max {
            Err(WireError::BadVarint)
        } else {
            Ok((s[pos] as nat, pos + 1))
        }
    } else {
        match take_varint(s, pos + 1, (width - 1) as nat, last_max) {
            Ok((v, p)) => Ok(((s[pos] - 128) as nat + 128 * v, p)),
            Err(e) => Err(e),
        }
    }
}

/// Reads a `u16` at `pos`: a varint of at most 3 bytes.
pub open spec fn take_u16(s: Seq<u8>, pos: int) -> Result<(u16, int), WireError> {
    match take_varint(s, pos, 3, 3) {
        Ok((v, p)) => Ok((v as u16, p)),
        Err(e) => Err(e),
    }
}

/// Reads a `u32` at `pos`: a varint of at most 5 bytes.
pub open spec fn take_u32(s: Seq<u8>, pos: int) -> Result<(u32, int), WireError> {
    match take_varint(s, pos, 5, 15) {
        Ok((v, p)) => Ok((v as u32, p)),
        Err(e) => Err(e),
    }
}

/// Reads a `u64` at `pos`: a varint of at most 10 bytes.
pub open spec fn take_u64(s: Seq<u8>, pos: int) -> Result<(u64, int), WireError> {
    match take_varint(s, pos, 10, 1) {
        Ok((v, p)) => Ok((v as u64, p)),
        Err(e) => Err(e),
    }
}

/// Reads a `bool` at `pos`.
pub open spec fn take_bool(s: Seq<u8>, pos: int) -> Result<(bool, int), WireError> {
    if pos < 0 || pos >= s.len() {
        Err(WireError::UnexpectedEnd)
    } else if s[pos] == 0 {
        Ok((false, pos + 1))
    } else if s[pos] == 1 {
        Ok((true, pos + 1))
    } else {
        Err(WireError::BadBool)
    }
}

/// Reads a fingerprint at `pos`: the next 32 bytes.
pub open spec fn take_hash(s: Seq<u8>, pos: int) -> Result<(Seq<u8>, int), WireError> {
    if pos < 0 || pos + HASH_LEN > s.len() {
        Err(WireError::UnexpectedEnd)
    } else {
        Ok((s.subrange(pos, pos + HASH_LEN), pos + HASH_LEN))
    }
}

/// Reads a byte string at `pos`: a length, then that many bytes.
pub open spec fn take_bytes(s: Seq<u8>, pos: int) -> Result<(Seq<u8>, int), WireError> {
    match take_u64(s, pos) {
        Ok((len, p)) => if p + len > s.len() {
            Err(WireError::UnexpectedEnd)
        } else {
            Ok((s.subrange(p, p + len), p + len))
        },
        Err(e) => Err(e),
    }
}

/// Reads a text at `pos`: a byte string that is well-formed UTF-8.
pub open spec fn take_text(s: Seq<u8>, pos: int) -> Result<(Seq<char>, int), WireError> {
    match take_bytes(s, pos) {
        Ok((b, p)) => if valid_utf8(b) {
            Ok((decode_utf8(b), p))
        } else {
            Err(WireError::BadUtf8)
        },
        Err(e) => Err(e),
    }
}

/// Whether `s` holds `e` at position `pos`.
pub open spec fn has_at(s: Seq<u8>, pos: int, e: Seq<u8>) -> bool {
    0 <= pos && pos + e.len() <= s.len() && s.subrange(pos, pos + e.len()) == e
}

/// Where `s` holds a concatenation, it holds the first part there and the
/// second part behind it.
pub proof fn lemma_has_at_split(s: Seq<u8>, pos: int, a: Seq<u8>, b: Seq<u8>)
    requires
        has_at(s, pos, a + b),
    ensures
        has_at(s, pos, a),
        has_at(s, pos + a.len(), b),
{
    let whole = s.subrange(pos, pos + (a + b).len());
    assert(s.subrange(pos, pos + a.len()) =~= whole.subrange(0, a.len() as int));
    assert((a + b).subrange(0, a.len() as int) =~= a);
    assert(s.subrange(pos + a.len(), pos + a.len() + b.len()) =~= whole.subrange(
        a.len() as int,
        (a + b).len() as int,
    ));
    assert((a + b).subrange(a.len() as int, (a + b).len() as int) =~= b);
}

/// The limits of the three integer widths are the sizes of their types.
pub proof fn lemma_varint_limits()
    ensures
        varint_limit(3, 3) == 0x1_0000,
        varint_limit(5, 15) == 0x1_0000_0000,
        varint_limit(10, 1) == 0x1_0000_0000_0000_0000,
{
    assert(varint_limit(1, 3) == 4);
    assert(varint_limit(2, 3) == 512);
    assert(varint_limit(1, 15) == 16);
    assert(varint_limit(2, 15) == 2048);
    assert(varint_limit(3, 15) == 262144);
    assert(varint_limit(4, 15) == 33554432);
    assert(varint_limit(1, 1) == 2);
    assert(varint_limit(2, 1) == 0x100);
    assert(varint_limit(3, 1) == 0x8000);
    assert(varint_limit(4, 1) == 0x40_0000);
    assert(varint_limit(5, 1) == 0x2000_0000);
    assert(varint_limit(6, 1) == 0x10_0000_0000);
    assert(varint_limit(7, 1) == 0x800_0000_0000);
    assert(varint_limit(8, 1) == 0x4_0000_0000_0000);
    assert(varint_limit(9, 1) == 0x200_0000_0000_0000);
}

/// From two bytes on, a reader's limit is at least one full group.
proof fn lemma_varint_limit_grows(width: nat, last_max: u8)
    requires
        width >= 1,
    ensures
        varint_limit(width, last_max) >= 1,
        width >= 2 ==> varint_limit(width, last_max) >= 128,
        varint_limit((width - 1) as nat, last_max) <= varint_limit(width, last_max),
    decreases width,
{
    if width >= 2 {
        lemma_varint_limit_grows((width - 1) as nat, last_max);
    }
}

/// What a varint reader returns is below its limit, and lies behind at least
/// one and at most `width` bytes of the input.
pub proof fn lemma_take_varint_bounds(s: Seq<u8>, pos: int, width: nat, last_max: u8)
    requires
        last_max < 128,
    ensures
        take_varint(s, pos, width, last_max) matches Ok((v, p)) ==> v < varint_limit(
            width,
            last_max,
        ) && pos < p <= pos + width && p <= s.len() && 0 <= pos,
    decreases width,
{
    if width == 0 || pos < 0 || pos >= s.len() {
    } else if s[pos] < 128 {
        lemma_varint_limit_grows(width, last_max);
    } else {
        lemma_take_varint_bounds(s, pos + 1, (width - 1) as nat, last_max);
        if width >= 2 {
            lemma_varint_limit_grows((width - 1) as nat, last_max);
        }
    }
}

/// Reading the varint of a number below the reader's limit gives the number
/// back, and the position behind the varint.
pub proof fn lemma_take_varint_of_varint(s: Seq<u8>, pos: int, n: nat, width: nat, last_max: u8)
    requires
        has_at(s, pos, varint(n)),
        n < varint_limit(width, last_max),
        last_max < 128,
    ensures
        take_varint(s, pos, width, last_max) == Ok::<(nat, int), WireError>(
            (n, pos + varint(n).len()),
        ),
    decreases width,
{
    let e = varint(n);
    assert(e.len() >= 1);
    assert(s[pos] == s.subrange(pos, pos + e.len())[0]);
    if n < 128 {
    } else {
        let rest = varint(n / 128);
        assert(e[0] == (128 + n % 128) as u8);
        if width >= 2 {
            lemma_has_at_split(s, pos, seq![(128 + n % 128) as u8], rest);
            lemma_varint_limit_grows((width - 1) as nat, last_max);
            lemma_take_varint_of_varint(s, pos + 1, n / 128, (width - 1) as nat, last_max);
        }
    }
}

/// A `u16` written as a varint reads back as itself.
pub proof fn lemma_take_u16_of_varint(s: Seq<u8>, pos: int, n: u16)
    requires
        has_at(s, pos, varint(n as nat)),
    ensures
        take_u16(s, pos) == Ok::<(u16, int), WireError>((n, pos + varint(n as nat).len())),
{
    lemma_varint_limits();
    lemma_take_varint_of_varint(s, pos, n as nat, 3, 3);
}

/// A `u32` written as a varint reads back as itself.
pub proof fn lemma_take_u32_of_varint(s: Seq<u8>, pos: int, n: u32)
    requires
        has_at(s, pos, varint(n as nat)),
    ensures
        take_u32(s, pos) == Ok::<(u32, int), WireError>((n, pos + varint(n as nat).len())),
{
    lemma_varint_limits();
    lemma_take_varint_of_varint(s, pos, n as nat, 5, 15);
}

/// A `u64` written as a varint reads back as itself.
pub proof fn lemma_take_u64_of_varint(s: Seq<u8>, pos: int, n: u64)
    requires
        has_at(s, pos, varint(n as nat)),
    ensures
        take_u64(s, pos) == Ok::<(u64, int), WireError>((n, pos + varint(n as nat).len())),
{
    lemma_varint_limits();
    lemma_take_varint_of_varint(s, pos, n as nat, 10, 1);
}

/// An encoded `bool` reads back as itself.
pub proof fn lemma_take_bool_of_bool_byte(s: Seq<u8>, pos: int, b: bool)
    requires
        has_at(s, pos, bool_byte(b)),
    ensures
        take_bool(s, pos) == Ok::<(bool, int), WireError>((b, pos + 1)),
{
    assert(s[pos] == s.subrange(pos, pos + 1)[0]);
}

/// A fingerprint reads back as itself.
pub proof fn lemma_take_hash_of_hash(s: Seq<u8>, pos: int, h: Seq<u8>)
    requires
        has_at(s, pos, h),
        h.len() == HASH_LEN,
    ensures
        take_hash(s, pos) == Ok::<(Seq<u8>, int), WireError>((h, pos + HASH_LEN)),
{
}

/// An encoded byte string of a length that fits in 64 bits reads back as
/// itself.
pub proof fn lemma_take_bytes_of_length_prefixed(s: Seq<u8>, pos: int, b: Seq<u8>)
    requires
        has_at(s, pos, length_prefixed(b)),
        b.len() <= u64::MAX,
    ensures
        take_bytes(s, pos) == Ok::<(Seq<u8>, int), WireError>(
            (b, pos + length_prefixed(b).len()),
        ),
{
    lemma_has_at_split(s, pos, varint(b.len()), b);
    lemma_take_u64_of_varint(s, pos, b.len() as u64);
}

/// An encoded text whose UTF-8 form has a length that fits in 64 bits reads
/// back as itself.
pub proof fn lemma_take_text_of_text(s: Seq<u8>, pos: int, t: Seq<char>)
    requires
        has_at(s, pos, text(t)),
        encode_utf8(t).len() <= u64::MAX,
    ensures
        take_text(s, pos) == Ok::<(Seq<char>, int), WireError>((t, pos + text(t).len())),
{
    lemma_take_bytes_of_length_prefixed(s, pos, encode_utf8(t));
    encode_utf8_valid_utf8(t);
    encode_utf8_decode_utf8(t);
}

/// How a write of `data` at `pos` relates the buffer before and after it.
/// The buffer keeps its length and what lay before `pos`. With room for
/// `data`, the result is the position behind it, the buffer holds `data` at
/// `pos` and keeps what lay behind it. Without room there is no result, and
/// nothing is said of the buffer from `pos` on.
pub open spec fn placed(
    before: Seq<u8>,
    after: Seq<u8>,
    pos: int,
    data: Seq<u8>,
    r: Option<usize>,
) -> bool {
    &&& after.len() == before.len()
    &&& after.take(pos) == before.take(pos)
    &&& match r {
        Some(p) => p == pos + data.len() && has_at(after, pos, data) && after.skip(p as int)
            == before.skip(p as int),
        None => pos + data.len() > before.len(),
    }
}

/// Two writes, the second at the position the first returned, make one write
/// of the concatenation.
pub proof fn lemma_placed_then_placed(
    s0: Seq<u8>,
    s1: Seq<u8>,
    s2: Seq<u8>,
    pos: int,
    a: Seq<u8>,
    b: Seq<u8>,
    mid: usize,
    r: Option<usize>,
)
    requires
        0 <= pos,
        placed(s0, s1, pos, a, Some(mid)),
        placed(s1, s2, mid as int, b, r),
    ensures
        placed(s0, s2, pos, a + b, r),
{
    assert(s2.take(pos) =~= s2.take(mid as int).take(pos));
    assert(s1.take(pos) =~= s1.take(mid as int).take(pos));
    if r is Some {
        assert(s2.subrange(pos, pos + a.len()) =~= s2.take(mid as int).subrange(
            pos,
            pos + a.len(),
        ));
        assert(s1.subrange(pos, pos + a.len()) =~= s1.take(mid as int).subrange(
            pos,
            pos + a.len(),
        ));
        assert(s2.subrange(pos, pos + (a + b).len()) =~= s2.subrange(pos, pos + a.len())
            + s2.subrange(mid as int, mid + b.len()));
        let end = r->Some_0 as int;
        assert(s1.skip(end) =~= s1.skip(mid as int).skip(end - mid));
        assert(s0.skip(end) =~= s0.skip(mid as int).skip(end - mid));
    }
}

/// A failed write after any number of writes is a failed write of the whole.
pub proof fn lemma_placed_then_full(
    s0: Seq<u8>,
    s1: Seq<u8>,
    pos: int,
    a: Seq<u8>,
    b: Seq<u8>,
)
    requires
        placed(s0, s1, pos, a, None),
    ensures
        placed(s0, s1, pos, a + b, None),
{
}

/// Writes one byte at `pos`.
pub fn write_byte(buffer: &mut [u8], pos: usize, b: u8) -> (r: Option<usize>)
    requires
        pos <= old(buffer)@.len(),
    ensures
        placed(old(buffer)@, final(buffer)@, pos as int, seq![b], r),
{
    if pos >= buffer.len() {
        return None;
    }
    buffer[pos] = b;
    assert(buffer@.take(pos as int) =~= old(buffer)@.take(pos as int));
    assert(buffer@.subrange(pos as int, pos + 1) =~= seq![b]);
    assert(buffer@.skip(pos + 1) =~= old(buffer)@.skip(pos + 1));
    Some(pos + 1)
}

/// Writes the varint of `value` at `pos`.
pub fn write_varint(buffer: &mut [u8], pos: usize, value: u64) -> (r: Option<usize>)
    requires
        pos <= old(buffer)@.len(),
    ensures
        placed(old(buffer)@, final(buffer)@, pos as int, varint(value as nat), r),
{
    let mut v: u64 = value;
    let mut p: usize = pos;
    loop
        invariant
            pos <= p <= buffer@.len(),
            buffer@.len() == old(buffer)@.len(),
            buffer@.take(pos as int) == old(buffer)@.take(pos as int),
            buffer@.skip(p as int) == old(buffer)@.skip(p as int),
            varint(value as nat) == buffer@.subrange(pos as int, p as int) + varint(v as nat),
        decreases v,
    {
        if p >= buffer.len() {
            return None;
        }
        let ghost prev = buffer@;
        if v < 128 {
            buffer[p] = v as u8;
            proof {
                assert(buffer@.take(pos as int) =~= prev.take(pos as int));
                assert(buffer@.subrange(pos as int, p + 1) =~= prev.subrange(pos as int, p as int)
                    + varint(v as nat));
                assert(buffer@.skip(p + 1) =~= prev.skip(p as int).skip(1));
                assert(old(buffer)@.skip(p + 1) =~= old(buffer)@.skip(p as int).skip(1));
            }
            return Some(p + 1);
        }
        buffer[p] = (128 + v % 128) as u8;
        proof {
            assert(buffer@.take(pos as int) =~= prev.take(pos as int));
            assert(buffer@.subrange(pos as int, p + 1) =~= prev.subrange(pos as int, p as int)
                + seq![(128 + v % 128) as u8]);
            assert(varint(value as nat) =~= buffer@.subrange(pos as int, p + 1) + varint(
                (v / 128) as nat,
            ));
            assert(buffer@.skip(p + 1) =~= prev.skip(p as int).skip(1));
            assert(old(buffer)@.skip(p + 1) =~= old(buffer)@.skip(p as int).skip(1));
        }
        v = v / 128;
        p = p + 1;
    }
}

/// Writes `data` at `pos`.
pub fn write_slice(buffer: &mut [u8], pos: usize, data: &[u8]) -> (r: Option<usize>)
    requires
        pos <= old(buffer)@.len(),
    ensures
        placed(old(buffer)@, final(buffer)@, pos as int, data@, r),
{
    if data.len() > buffer.len() - pos {
        return None;
    }
    let mut i: usize = 0;
    while i < data.len()
        invariant
            i <= data@.len(),
            pos + data@.len() <= buffer@.len() <= usize::MAX,
            buffer@.len() == old(buffer)@.len(),
            buffer@.take(pos as int) == old(buffer)@.take(pos as int),
            buffer@.subrange(pos as int, pos + i) == data@.take(i as int),
            buffer@.skip(pos + data@.len()) == old(buffer)@.skip(pos + data@.len()),
        decreases data@.len() - i,
    {
        let ghost prev = buffer@;
        buffer[pos + i] = data[i];
        proof {
            assert(buffer@.take(pos as int) =~= prev.take(pos as int));
            assert(buffer@.subrange(pos as int, pos + i + 1) =~= data@.take(i + 1));
            assert(buffer@.skip(pos + data@.len()) =~= prev.skip(pos + data@.len()));
        }
        i += 1;
    }
    assert(data@.take(data@.len() as int) =~= data@);
    Some(pos + data.len())
}

/// Writes a byte string at `pos`: its length, then its bytes.
pub fn write_bytes(buffer: &mut [u8], pos: usize, data: &[u8]) -> (r: Option<usize>)
    requires
        pos <= old(buffer)@.len(),
    ensures
        placed(old(buffer)@, final(buffer)@, pos as int, length_prefixed(data@), r),
{
    let ghost s0 = buffer@;
    match write_varint(buffer, pos, data.len() as u64) {
        None => {
            proof {
                lemma_placed_then_full(s0, buffer@, pos as int, varint(data@.len()), data@);
            }
            None
        },
        Some(mid) => {
            let ghost s1 = buffer@;
            let r = write_slice(buffer, mid, data);
            proof {
                lemma_placed_then_placed(
                    s0,
                    s1,
                    buffer@,
                    pos as int,
                    varint(data@.len()),
                    data@,
                    mid,
                    r,
                );
            }
            r
        },
    }
}

/// Reads a varint of at most `width` bytes at `pos`.
pub fn read_varint(bytes: &[u8], pos: usize, width: u8, last_max: u8) -> (r: Result<
    (u64, usize),
    WireError,
>)
    requires
        pos <= bytes@.len(),
        last_max < 128,
        varint_limit(width as nat, last_max) <= 0x1_0000_0000_0000_0000,
    ensures
        match r {
            Ok((v, p)) => take_varint(bytes@, pos as int, width as nat, last_max) == Ok::<
                (nat, int),
                WireError,
            >((v as nat, p as int)),
            Err(e) => take_varint(bytes@, pos as int, width as nat, last_max) == Err::<
                (nat, int),
                WireError,
            >(e),
        },
    decreases width,
{
    if width == 0 {
        return Err(WireError::BadVarint);
    }
    if pos >= bytes.len() {
        return Err(WireError::UnexpectedEnd);
    }
    let b = bytes[pos];
    if b < 128 {
        if width == 1 && b > last_max {
            Err(WireError::BadVarint)
        } else {
            Ok((b as u64, pos + 1))
        }
    } else {
        proof {
            lemma_varint_limit_grows(width as nat, last_max);
            lemma_take_varint_bounds(bytes@, pos + 1, (width - 1) as nat, last_max);
        }
        match read_varint(bytes, pos + 1, width - 1, last_max) {
            Ok((v, p)) => {
                let low: u64 = (b - 128) as u64;
                Ok((low + 128 * v, p))
            },
            Err(e) => Err(e),
        }
    }
}

/// Reads a `u16` at `pos`.
pub fn read_u16(bytes: &[u8], pos: usize) -> (r: Result<(u16, usize), WireError>)
    requires
        pos <= bytes@.len(),
    ensures
        r matches Ok((_, p)) ==> pos < p <= bytes@.len(),
        match r {
            Ok((v, p)) => take_u16(bytes@, pos as int) == Ok::<(u16, int), WireError>(
                (v, p as int),
            ),
            Err(e) => take_u16(bytes@, pos as int) == Err::<(u16, int), WireError>(e),
        },
{
    proof {
        lemma_varint_limits();
        lemma_take_varint_bounds(bytes@, pos as int, 3, 3);
    }
    match read_varint(bytes, pos, 3, 3) {
        Ok((v, p)) => Ok((v as u16, p)),
        Err(e) => Err(e),
    }
}

/// Reads a `u32` at `pos`.
pub fn read_u32(bytes: &[u8], pos: usize) -> (r: Result<(u32, usize), WireError>)
    requires
        pos <= bytes@.len(),
    ensures
        r matches Ok((_, p)) ==> pos < p <= bytes@.len(),
        match r {
            Ok((v, p)) => take_u32(bytes@, pos as int) == Ok::<(u32, int), WireError>(
                (v, p as int),
            ),
            Err(e) => take_u32(bytes@, pos as int) == Err::<(u32, int), WireError>(e),
        },
{
    proof {
        lemma_varint_limits();
        lemma_take_varint_bounds(bytes@, pos as int, 5, 15);
    }
    match read_varint(bytes, pos, 5, 15) {
        Ok((v, p)) => Ok((v as u32, p)),
        Err(e) => Err(e),
    }
}

/// Reads a `u64` at `pos`.
pub fn read_u64(bytes: &[u8], pos: usize) -> (r: Result<(u64, usize), WireError>)
    requires
        pos <= bytes@.len(),
    ensures
        r matches Ok((_, p)) ==> pos < p <= bytes@.len(),
        match r {
            Ok((v, p)) => take_u64(bytes@, pos as int) == Ok::<(u64, int), WireError>(
                (v, p as int),
            ),
            Err(e) => take_u64(bytes@, pos as int) == Err::<(u64, int), WireError>(e),
        },
{
    proof {
        lemma_varint_limits();
        lemma_take_varint_bounds(bytes@, pos as int, 10, 1);
    }
    read_varint(bytes, pos, 10, 1)
}

/// Reads a `bool` at `pos`.
pub fn read_bool(bytes: &[u8], pos: usize) -> (r: Result<(bool, usize), WireError>)
    requires
        pos <= bytes@.len(),
    ensures
        r matches Ok((_, p)) ==> pos < p <= bytes@.len(),
        match r {
            Ok((v, p)) => take_bool(bytes@, pos as int) == Ok::<(bool, int), WireError>(
                (v, p as int),
            ),
            Err(e) => take_bool(bytes@, pos as int) == Err::<(bool, int), WireError>(e),
        },
{
    if pos >= bytes.len() {
        return Err(WireError::UnexpectedEnd);
    }
    let b = bytes[pos];
    if b == 0 {
        Ok((false, pos + 1))
    } else if b == 1 {
        Ok((true, pos + 1))
    } else {
        Err(WireError::BadBool)
    }
}

/// Reads a fingerprint at `pos`.
pub fn read_hash(bytes: &[u8], pos: usize) -> (r: Result<([u8; 32], usize), WireError>)
    requires
        pos <= bytes@.len(),
    ensures
        r matches Ok((_, p)) ==> pos < p <= bytes@.len(),
        match r {
            Ok((v, p)) => take_hash(bytes@, pos as int) == Ok::<(Seq<u8>, int), WireError>(
                (v@, p as int),
            ),
            Err(e) => take_hash(bytes@, pos as int) == Err::<(Seq<u8>, int), WireError>(e),
        },
{
    if bytes.len() - pos < HASH_LEN {
        return Err(WireError::UnexpectedEnd);
    }
    let mut hash = [0u8; 32];
    let mut i: usize = 0;
    while i < HASH_LEN
        invariant
            i <= HASH_LEN,
            pos + HASH_LEN <= bytes@.len() <= usize::MAX,
            forall|j: int| 0 <= j < i ==> hash@[j] == bytes@[pos + j],
        decreases HASH_LEN - i,
    {
        hash[i] = bytes[pos + i];
        i += 1;
    }
    assert(hash@ =~= bytes@.subrange(pos as int, pos + HASH_LEN));
    Ok((hash, pos + HASH_LEN))
}

/// Reads a byte string at `pos`, without copying it.
pub fn read_bytes<'a>(bytes: &'a [u8], pos: usize) -> (r: Result<(&'a [u8], usize), WireError>)
    requires
        pos <= bytes@.len(),
    ensures
        r matches Ok((_, p)) ==> pos < p <= bytes@.len(),
        match r {
            Ok((v, p)) => take_bytes(bytes@, pos as int) == Ok::<(Seq<u8>, int), WireError>(
                (v@, p as int),
            ),
            Err(e) => take_bytes(bytes@, pos as int) == Err::<(Seq<u8>, int), WireError>(e),
        },
{
    proof {
        lemma_take_varint_bounds(bytes@, pos as int, 10, 1);
    }
    match read_u64(bytes, pos) {
        Ok((len, p)) => {
            if len > (bytes.len() - p) as u64 {
                Err(WireError::UnexpectedEnd)
            } else {
                let end: usize = p + len as usize;
                Ok((slice_subrange(bytes, p, end), end))
            }
        },
        Err(e) => Err(e),
    }
}

/// `core::str::from_utf8`: the text of a byte string, where the bytes are
/// well-formed UTF-8, and nothing where they are not. The text has exactly
/// those bytes as its UTF-8 form.
#[verifier::external_body]
pub(crate) fn str_from_utf8<'a>(bytes: &'a [u8]) -> (r: Option<&'a str>)
    ensures
        r is Some <==> valid_utf8(bytes@),
        r matches Some(t) ==> encode_utf8(t@) == bytes@,
{
    core::str::from_utf8(bytes).ok()
}

/// Reads a text at `pos`, without copying it.
pub fn read_text<'a>(bytes: &'a [u8], pos: usize) -> (r: Result<(&'a str, usize), WireError>)
    requires
        pos <= bytes@.len(),
    ensures
        r matches Ok((_, p)) ==> pos < p <= bytes@.len(),
        match r {
            Ok((v, p)) => take_text(bytes@, pos as int) == Ok::<(Seq<char>, int), WireError>(
                (v@, p as int),
            ),
            Err(e) => take_text(bytes@, pos as int) == Err::<(Seq<char>, int), WireError>(e),
        },
{
    match read_bytes(bytes, pos) {
        Ok((raw, p)) => match str_from_utf8(raw) {
            Some(t) => {
                proof {
                    encode_utf8_decode_utf8(t@);
                }
                Ok((t, p))
            },
            None => Err(WireError::BadUtf8),
        },
        Err(e) => Err(e),
    }
}

/// Continues a chain of writes with the varint of `value`: `at` is where the
/// chain stands, or nothing once the buffer was full.
pub(crate) fn then_varint(
    buffer: &mut [u8],
    at: Option<usize>,
    value: u64,
    Ghost(origin): Ghost<Seq<u8>>,
    Ghost(written): Ghost<Seq<u8>>,
) -> (r: Option<usize>)
    requires
        placed(origin, old(buffer)@, 0, written, at),
    ensures
        placed(origin, final(buffer)@, 0, written + varint(value as nat), r),
{
    match at {
        None => None,
        Some(p) => {
            let ghost s1 = buffer@;
            let r = write_varint(buffer, p, value);
            proof {
                lemma_placed_then_placed(origin, s1, buffer@, 0, written, varint(value as nat), p, r);
            }
            r
        },
    }
}

/// Continues a chain of writes with one byte.
pub(crate) fn then_byte(
    buffer: &mut [u8],
    at: Option<usize>,
    b: u8,
    Ghost(origin): Ghost<Seq<u8>>,
    Ghost(written): Ghost<Seq<u8>>,
) -> (r: Option<usize>)
    requires
        placed(origin, old(buffer)@, 0, written, at),
    ensures
        placed(origin, final(buffer)@, 0, written + seq![b], r),
{
    match at {
        None => None,
        Some(p) => {
            let ghost s1 = buffer@;
            let r = write_byte(buffer, p, b);
            proof {
                lemma_placed_then_placed(origin, s1, buffer@, 0, written, seq![b], p, r);
            }
            r
        },
    }
}

/// Continues a chain of writes with the bytes of `data`, as they are.
pub(crate) fn then_slice(
    buffer: &mut [u8],
    at: Option<usize>,
    data: &[u8],
    Ghost(origin): Ghost<Seq<u8>>,
    Ghost(written): Ghost<Seq<u8>>,
) -> (r: Option<usize>)
    requires
        placed(origin, old(buffer)@, 0, written, at),
    ensures
        placed(origin, final(buffer)@, 0, written + data@, r),
{
    match at {
        None => None,
        Some(p) => {
            let ghost s1 = buffer@;
            let r = write_slice(buffer, p, data);
            proof {
                lemma_placed_then_placed(origin, s1, buffer@, 0, written, data@, p, r);
            }
            r
        },
    }
}

/// Continues a chain of writes with a byte string: its length, then its bytes.
pub(crate) fn then_bytes(
    buffer: &mut [u8],
    at: Option<usize>,
    data: &[u8],
    Ghost(origin): Ghost<Seq<u8>>,
    Ghost(written): Ghost<Seq<u8>>,
) -> (r: Option<usize>)
    requires
        placed(origin, old(buffer)@, 0, written, at),
    ensures
        placed(origin, final(buffer)@, 0, written + length_prefixed(data@), r),
{
    match at {
        None => None,
        Some(p) => {
            let ghost s1 = buffer@;
            let r = write_bytes(buffer, p, data);
            proof {
                lemma_placed_then_placed(
                    origin,
                    s1,
                    buffer@,
                    0,
                    written,
                    length_prefixed(data@),
                    p,
                    r,
                );
            }
            r
        },
    }
}

} // verus!

//! Reading framed messages from a byte stream.
//!
//! The bytes of a stream are gathered in a buffer. The functions here look
//! at what has been gathered so far and say whether a whole frame is there,
//! where its payload lies, and what is left over for the next message. They
//! never touch the stream: whoever owns it reads more bytes when asked to.

use crate::decimal::{
    decimal, is_digit, lemma_decimal_is_digits, lemma_parse_decimal_of_decimal,
    parse_decimal, parse_decimal_bytes,
};
use crate::transport::{
    decode_receiver, decode_sender, frame, frame_header, lemma_decode_receiver_of_encoding,
    lemma_decode_sender_of_encoding, ReceiverMessage, ReceiverMessageV1, SenderMessage,
    SenderMessageV1, TransportError, CURRENT_PROTOCOL_VERSION, LENGTH_HEADER_PREFIX,
    MAX_MESSAGE_SIZE, MESSAGE_DELIMITER, VERSION_HEADER_PREFIX,
};
use crate::wire::{str_from_utf8, WireError};
use vstd::prelude::*;
use vstd::slice::slice_subrange;
use vstd::utf8::valid_utf8;

verus! {

/// Errors that can occur when reading a message from a stream.
#[derive(Debug, Clone, PartialEq, Eq)]
pub enum StreamReadError {
    /// The stream was closed by the peer in the middle of a frame.
    UnexpectedEof,
    /// The buffer cannot hold the frame: it needs at least `min_expected` bytes.
    BufferSmallerThanExpected { min_expected: usize },
    /// The header lines are missing or malformed.
    InvalidMessageFormat { details: String },
    /// The protocol version is not supported.
    UnsupportedProtocolVersion { found: u8, expected: u8 },
    /// The payload is not the encoding of a message.
    PayloadParseError(WireError),
}

/// A read error as a mathematical value.
pub enum ReadFailure {
    UnexpectedEof,
    BufferSmallerThanExpected { min_expected: usize },
    InvalidMessageFormat { details: Seq<char> },
    UnsupportedProtocolVersion { found: u8, expected: u8 },
    PayloadParseError(WireError),
}

impl View for StreamReadError {
    type V = ReadFailure;

    open spec fn view(&self) -> ReadFailure {
        match *self {
            StreamReadError::UnexpectedEof => ReadFailure::UnexpectedEof,
            StreamReadError::BufferSmallerThanExpected { min_expected } => {
                ReadFailure::BufferSmallerThanExpected { min_expected }
            },
            StreamReadError::InvalidMessageFormat { details } => ReadFailure::InvalidMessageFormat {
                details: details@,
            },
            StreamReadError::UnsupportedProtocolVersion { found, expected } => {
                ReadFailure::UnsupportedProtocolVersion { found, expected }
            },
            StreamReadError::PayloadParseError(e) => ReadFailure::PayloadParseError(e),
        }
    }
}

/// What is said of a header region with fewer than two lines.
pub const HEADER_MISSING: &'static str = "Header line is missing";

/// What is said of a header line that is shorter than its prefix.
pub const HEADER_TOO_SHORT: &'static str = "Header is too short to contain expected prefix";

/// What is said of a header value that is not well-formed UTF-8.
pub const HEADER_NOT_UTF8: &'static str = "Version header is not valid UTF-8";

/// What is said of a header value that is no decimal number of its type.
pub const HEADER_NOT_A_NUMBER: &'static str = "Version header does not contain a valid number";

/// The length of a header's prefix, `Ver: ` or `Len: `.
pub const HEADER_PREFIX_LEN: usize = 5;

/// The format error with the given description.
pub open spec fn format_failure(details: &str) -> ReadFailure {
    ReadFailure::InvalidMessageFormat { details: details@ }
}

fn format_error(details: &'static str) -> (e: StreamReadError)
    ensures
        e@ == format_failure(details),
{
    StreamReadError::InvalidMessageFormat { details: details.to_owned() }
}

/// Whether `b` ends a line: carriage return or line feed.
pub open spec fn is_line_break(b: u8) -> bool {
    b == 0x0d || b == 0x0a
}

/// Whether `b` is ASCII white space: space, tab, line feed, form feed or
/// carriage return.
pub open spec fn is_ascii_space(b: u8) -> bool {
    b == 0x20 || b == 0x09 || b == 0x0a || b == 0x0c || b == 0x0d
}

/// `s` without the white space at its front.
pub open spec fn trim_start(s: Seq<u8>) -> Seq<u8>
    decreases s.len(),
{
    if s.len() > 0 && is_ascii_space(s[0]) {
        trim_start(s.skip(1))
    } else {
        s
    }
}

/// `s` without the white space at its end.
pub open spec fn trim_end(s: Seq<u8>) -> Seq<u8>
    decreases s.len(),
{
    if s.len() > 0 && is_ascii_space(s.last()) {
        trim_end(s.drop_last())
    } else {
        s
    }
}

/// `s` without the white space at its front and at its end.
pub open spec fn trim(s: Seq<u8>) -> Seq<u8> {
    trim_end(trim_start(s))
}

/// The first position at or behind `from` that holds no line break, or the
/// length of `s` where there is none: where the next line begins.
pub open spec fn line_start(s: Seq<u8>, from: int) -> int
    decreases s.len() - from,
{
    if from < 0 || from >= s.len() {
        s.len() as int
    } else if is_line_break(s[from]) {
        line_start(s, from + 1)
    } else {
        from
    }
}

/// The first position at or behind `from` that holds a line break, or the
/// length of `s` where there is none: where the line at `from` ends.
pub open spec fn line_end(s: Seq<u8>, from: int) -> int
    decreases s.len() - from,
{
    if from < 0 || from >= s.len() {
        s.len() as int
    } else if is_line_break(s[from]) {
        from
    } else {
        line_end(s, from + 1)
    }
}

/// The number that a header line carries behind its prefix of `prefix_len`
/// bytes: the rest of the line, trimmed, read as a decimal number of at most
/// `max`.
pub open spec fn header_value(line: Seq<u8>, prefix_len: nat, max: nat) -> Result<
    nat,
    ReadFailure,
> {
    if line.len() < prefix_len {
        Err(format_failure(HEADER_TOO_SHORT))
    } else {
        let value = trim(line.skip(prefix_len as int));
        match parse_decimal(value, max) {
            Some(v) => Ok(v),
            None => if valid_utf8(value) {
                Err(format_failure(HEADER_NOT_A_NUMBER))
            } else {
                Err(format_failure(HEADER_NOT_UTF8))
            },
        }
    }
}

/// The protocol version and the payload length that a header region states.
/// The region is cut into lines at carriage returns and line feeds, and empty
/// lines do not count. The first line, trimmed, carries the version behind
/// its five-byte prefix, the second the length. What the prefixes say is not
/// looked at, and further lines are ignored.
pub open spec fn parse_headers(header: Seq<u8>) -> Result<(u8, usize), ReadFailure> {
    let a = line_start(header, 0);
    let b = line_end(header, a);
    let c = line_start(header, b);
    let d = line_end(header, c);
    if a >= header.len() {
        Err(format_failure(HEADER_MISSING))
    } else {
        match header_value(trim(header.subrange(a, b)), HEADER_PREFIX_LEN as nat, u8::MAX as nat) {
            Err(e) => Err(e),
            Ok(version) => if c >= header.len() {
                Err(format_failure(HEADER_MISSING))
            } else {
                match header_value(
                    trim(header.subrange(c, d)),
                    HEADER_PREFIX_LEN as nat,
                    usize::MAX as nat,
                ) {
                    Err(e) => Err(e),
                    Ok(length) => Ok((version as u8, length as usize)),
                }
            },
        }
    }
}

/// A sequence that leaves out white space in front of `i` and ends where
/// white space begins is the trimmed sequence.
proof fn lemma_trim_start_from(s: Seq<u8>, i: int)
    requires
        0 <= i <= s.len(),
        forall|j: int| 0 <= j < i ==> is_ascii_space(#[trigger] s[j]),
        i < s.len() ==> !is_ascii_space(s[i]),
    ensures
        trim_start(s) == s.skip(i),
    decreases i,
{
    if i == 0 {
        assert(s.skip(0) =~= s);
    } else {
        let t = s.skip(1);
        assert(is_ascii_space(s[0]));
        assert forall|j: int| 0 <= j < i - 1 implies is_ascii_space(#[trigger] t[j]) by {
            assert(t[j] == s[j + 1]);
        }
        lemma_trim_start_from(t, i - 1);
        assert(t.skip(i - 1) =~= s.skip(i));
    }
}

proof fn lemma_trim_end_to(s: Seq<u8>, j: int)
    requires
        0 <= j <= s.len(),
        forall|k: int| j <= k < s.len() ==> is_ascii_space(#[trigger] s[k]),
        j > 0 ==> !is_ascii_space(s[j - 1]),
    ensures
        trim_end(s) == s.take(j),
    decreases s.len() - j,
{
    if j == s.len() {
        assert(s.take(j) =~= s);
    } else {
        let t = s.drop_last();
        assert(is_ascii_space(s.last()));
        assert forall|k: int| j <= k < t.len() implies is_ascii_space(#[trigger] t[k]) by {
            assert(t[k] == s[k]);
        }
        lemma_trim_end_to(t, j);
        assert(t.take(j) =~= s.take(j));
    }
}

/// A sequence that neither begins nor ends with white space is its own
/// trimmed form.
pub proof fn lemma_trim_of_trimmed(s: Seq<u8>)
    requires
        s.len() > 0,
        !is_ascii_space(s[0]),
        !is_ascii_space(s.last()),
    ensures
        trim(s) == s,
{
}

/// `line` without the white space at its front and at its end.
pub fn trim_ascii<'a>(line: &'a [u8]) -> (r: &'a [u8])
    ensures
        r@ == trim(line@),
{
    let mut i: usize = 0;
    while i < line.len() && is_space(line[i])
        invariant
            i <= line@.len(),
            forall|j: int| 0 <= j < i ==> is_ascii_space(#[trigger] line@[j]),
        decreases line@.len() - i,
    {
        i += 1;
    }
    let mut j: usize = line.len();
    while j > i && is_space(line[j - 1])
        invariant
            i <= j <= line@.len(),
            forall|k: int| j <= k < line@.len() ==> is_ascii_space(#[trigger] line@[k]),
        decreases j,
    {
        j -= 1;
    }
    proof {
        lemma_trim_start_from(line@, i as int);
        let t = line@.skip(i as int);
        assert forall|k: int| j - i <= k < t.len() implies is_ascii_space(#[trigger] t[k]) by {
            assert(t[k] == line@[k + i]);
        }
        lemma_trim_end_to(t, j - i);
        assert(t.take(j - i) =~= line@.subrange(i as int, j as int));
    }
    slice_subrange(line, i, j)
}

fn is_space(b: u8) -> (r: bool)
    ensures
        r == is_ascii_space(b),
{
    b == 0x20 || b == 0x09 || b == 0x0a || b == 0x0c || b == 0x0d
}

fn is_break(b: u8) -> (r: bool)
    ensures
        r == is_line_break(b),
{
    b == 0x0d || b == 0x0a
}

/// Parses a header line of the form `Prefix: value`: skips `prefix_len`
/// bytes and reads the rest, trimmed, as a decimal number of at most `max`.
pub fn parse_header_line(line: &[u8], prefix_len: usize, max: u64) -> (r: Result<
    u64,
    StreamReadError,
>)
    ensures
        match r {
            Ok(v) => header_value(line@, prefix_len as nat, max as nat) == Ok::<nat, ReadFailure>(
                v as nat,
            ),
            Err(e) => header_value(line@, prefix_len as nat, max as nat) == Err::<
                nat,
                ReadFailure,
            >(e@),
        },
{
    if line.len() < prefix_len {
        return Err(format_error(HEADER_TOO_SHORT));
    }
    let value = trim_ascii(slice_subrange(line, prefix_len, line.len()));
    assert(line@.subrange(prefix_len as int, line@.len() as int) =~= line@.skip(prefix_len as int));
    match parse_decimal_bytes(value, max) {
        Some(v) => Ok(v),
        None => match str_from_utf8(value) {
            Some(_) => Err(format_error(HEADER_NOT_A_NUMBER)),
            None => Err(format_error(HEADER_NOT_UTF8)),
        },
    }
}

/// Finds the next line at or behind `from`: where it begins and where it ends.
fn next_line(header: &[u8], from: usize) -> (r: (usize, usize))
    requires
        from <= header@.len(),
    ensures
        r.0 == line_start(header@, from as int),
        r.1 == line_end(header@, r.0 as int),
        from <= r.0 <= r.1 <= header@.len(),
{
    let mut a: usize = from;
    while a < header.len() && is_break(header[a])
        invariant
            from <= a <= header@.len(),
            line_start(header@, from as int) == line_start(header@, a as int),
        decreases header@.len() - a,
    {
        a += 1;
    }
    let mut b: usize = a;
    while b < header.len() && !is_break(header[b])
        invariant
            a <= b <= header@.len(),
            line_end(header@, a as int) == line_end(header@, b as int),
        decreases header@.len() - b,
    {
        b += 1;
    }
    (a, b)
}

/// Parses the header region of a frame, the bytes in front of the blank line,
/// and extracts the protocol version and the payload length.
pub fn parse_all_headers(header_buffer: &[u8]) -> (r: Result<(u8, usize), StreamReadError>)
    ensures
        match r {
            Ok(v) => parse_headers(header_buffer@) == Ok::<(u8, usize), ReadFailure>(v),
            Err(e) => parse_headers(header_buffer@) == Err::<(u8, usize), ReadFailure>(e@),
        },
{
    let (a, b) = next_line(header_buffer, 0);
    if a >= header_buffer.len() {
        return Err(format_error(HEADER_MISSING));
    }
    let first = trim_ascii(slice_subrange(header_buffer, a, b));
    let version = match parse_header_line(first, HEADER_PREFIX_LEN, u8::MAX as u64) {
        Ok(v) => v,
        Err(e) => return Err(e),
    };
    let (c, d) = next_line(header_buffer, b);
    if c >= header_buffer.len() {
        return Err(format_error(HEADER_MISSING));
    }
    let second = trim_ascii(slice_subrange(header_buffer, c, d));
    let length = match parse_header_line(second, HEADER_PREFIX_LEN, usize::MAX as u64) {
        Ok(v) => v,
        Err(e) => return Err(e),
    };
    Ok((version as u8, length as usize))
}

/// Result of reading a message from the buffer: the message, the number of
/// bytes of the buffer that hold received data, and where in the buffer the
/// bytes of the next message begin, if any of them have arrived already.
#[derive(Debug)]
pub struct ReadPayloadResult<T> {
    pub message: T,
    pub total_bytes_read: usize,
    pub next_payload_index: Option<usize>,
}

/// What a look at the buffer found.
#[derive(Debug)]
pub enum ReadProgress<T> {
    /// No whole frame yet: more bytes must be read from the stream. The next
    /// look may start its search for the blank line at `resume_from`.
    NeedMore { resume_from: usize },
    /// A whole frame.
    Done(ReadPayloadResult<T>),
}

/// Whether the blank line that ends the header region begins at `i`: two
/// line ends in a row.
pub open spec fn is_terminator_at(s: Seq<u8>, i: int) -> bool {
    0 <= i && i + 4 <= s.len() && s[i] == 0x0d && s[i + 1] == 0x0a && s[i + 2] == 0x0d && s[i
        + 3] == 0x0a
}

/// The first position at or behind `from` where the header region ends.
pub open spec fn first_terminator(s: Seq<u8>, from: int) -> Option<int>
    decreases s.len() - from,
{
    if from < 0 || from + 4 > s.len() {
        None
    } else if is_terminator_at(s, from) {
        Some(from)
    } else {
        first_terminator(s, from + 1)
    }
}

/// Where the received bytes stand.
pub enum FrameStatus {
    /// No whole frame yet.
    NeedMore,
    /// A whole frame, with its payload between the two positions.
    Ready { payload_start: int, payload_end: int },
}

/// Where `received` stands as the beginning of a stream of frames, in a
/// buffer of `capacity` bytes, when the end of the header region is looked
/// for from `search_from` on.
///
/// Without a blank line the frame is incomplete, and too large once the
/// buffer is full. With one, the headers in front of it must state version 1
/// and a length. The frame must fit in the buffer, and it is complete when
/// all bytes of the payload are there.
pub open spec fn frame_status(received: Seq<u8>, capacity: nat, search_from: int) -> Result<
    FrameStatus,
    ReadFailure,
> {
    match first_terminator(received, search_from) {
        None => if received.len() >= capacity {
            Err(
                ReadFailure::BufferSmallerThanExpected {
                    min_expected: MAX_MESSAGE_SIZE,
                },
            )
        } else {
            Ok(FrameStatus::NeedMore)
        },
        Some(h) => match parse_headers(received.take(h)) {
            Err(e) => Err(e),
            Ok((version, length)) => if version != CURRENT_PROTOCOL_VERSION {
                Err(
                    ReadFailure::UnsupportedProtocolVersion {
                        found: version,
                        expected: CURRENT_PROTOCOL_VERSION,
                    },
                )
            } else if h + 4 + length > capacity {
                Err(
                    ReadFailure::BufferSmallerThanExpected {
                        min_expected: if h + 4 + length > usize::MAX {
                            usize::MAX
                        } else {
                            (h + 4 + length) as usize
                        },
                    },
                )
            } else if received.len() < h + 4 + length {
                Ok(FrameStatus::NeedMore)
            } else {
                Ok(FrameStatus::Ready { payload_start: h + 4, payload_end: h + 4 + length })
            },
        },
    }
}

/// The first end of a header region is where one is and none is before it.
pub proof fn lemma_first_terminator(s: Seq<u8>, from: int, h: int)
    requires
        0 <= from <= h,
        is_terminator_at(s, h),
        forall|i: int| from <= i < h ==> !is_terminator_at(s, i),
    ensures
        first_terminator(s, from) == Some(h),
    decreases h - from,
{
    if from < h {
        lemma_first_terminator(s, from + 1, h);
    }
}

/// What the search finds lies at or behind its start and is an end of a
/// header region with none between the start and it.
pub proof fn lemma_first_terminator_found(s: Seq<u8>, from: int)
    ensures
        first_terminator(s, from) matches Some(h) ==> from <= h && is_terminator_at(s, h)
            && forall|i: int| from <= i < h ==> !is_terminator_at(s, i),
        first_terminator(s, from) is None && 0 <= from ==> forall|i: int|
            from <= i ==> !is_terminator_at(s, i),
    decreases s.len() - from,
{
    if from < 0 || from + 4 > s.len() {
    } else if is_terminator_at(s, from) {
    } else {
        lemma_first_terminator_found(s, from + 1);
    }
}

/// A search may start anywhere behind the positions that are known to hold
/// no end of a header region: it finds what a search from the front finds.
proof fn lemma_search_may_resume(s: Seq<u8>, from: int, resume: int)
    requires
        0 <= from <= resume,
        forall|i: int| from <= i < resume ==> !is_terminator_at(s, i),
    ensures
        first_terminator(s, resume) == first_terminator(s, from),
    decreases resume - from,
{
    if from < resume {
        lemma_search_may_resume(s, from + 1, resume);
        if from + 4 > s.len() {
            lemma_first_terminator_found(s, resume);
        }
    }
}

/// Looks for the end of the header region in `buffer[..filled]`, from
/// `from` on.
fn find_terminator(buffer: &[u8], filled: usize, from: usize) -> (r: Option<usize>)
    requires
        filled <= buffer@.len(),
    ensures
        match r {
            Some(h) => first_terminator(buffer@.take(filled as int), from as int) == Some(
                h as int,
            ) && h + 4 <= filled,
            None => first_terminator(buffer@.take(filled as int), from as int) is None,
        },
{
    let ghost s = buffer@.take(filled as int);
    if filled < 4 || from > filled - 4 {
        return None;
    }
    let mut i: usize = from;
    while i <= filled - 4
        invariant
            from <= i <= filled - 3,
            4 <= filled <= buffer@.len(),
            s == buffer@.take(filled as int),
            first_terminator(s, from as int) == first_terminator(s, i as int),
        decreases filled - i,
    {
        if buffer[i] == 0x0d && buffer[i + 1] == 0x0a && buffer[i + 2] == 0x0d && buffer[i + 3]
            == 0x0a {
            assert(is_terminator_at(s, i as int));
            return Some(i);
        }
        assert(!is_terminator_at(s, i as int));
        i += 1;
    }
    None
}

/// Whether a search from `search_from` may go on at `resume_from` once more
/// bytes have come: no position between the two is behind `resume_from`,
/// and each of them holds four bytes that are no end of a header region.
pub open spec fn may_resume(received: Seq<u8>, search_from: int, resume_from: int) -> bool {
    &&& search_from <= resume_from
    &&& forall|i: int|
        search_from <= i < resume_from ==> i + 4 <= received.len() && !is_terminator_at(
            received,
            i,
        )
}

/// Resuming is sound: whatever bytes come behind those received, a look
/// that searches from `resume_from` finds what a look from `search_from`
/// finds.
pub proof fn lemma_resumed_search(
    received: Seq<u8>,
    more: Seq<u8>,
    capacity: nat,
    search_from: int,
    resume_from: int,
)
    requires
        0 <= search_from,
        may_resume(received, search_from, resume_from),
    ensures
        first_terminator(received + more, resume_from) == first_terminator(
            received + more,
            search_from,
        ),
        frame_status(received + more, capacity, resume_from) == frame_status(
            received + more,
            capacity,
            search_from,
        ),
{
    let extended = received + more;
    assert forall|i: int| search_from <= i < resume_from implies !is_terminator_at(
        extended,
        i,
    ) by {
        assert(!is_terminator_at(received, i));
        assert(extended[i] == received[i] && extended[i + 1] == received[i + 1] && extended[i
            + 2] == received[i + 2] && extended[i + 3] == received[i + 3]);
    }
    lemma_search_may_resume(extended, search_from, resume_from);
}

/// How a successful look at the buffer relates to the status of the bytes
/// received.
pub open spec fn progress_matches(
    progress: ReadProgress<&[u8]>,
    received: Seq<u8>,
    search_from: int,
    status: FrameStatus,
) -> bool {
    match progress {
        ReadProgress::NeedMore { resume_from } => {
            &&& status is NeedMore
            &&& may_resume(received, search_from, resume_from as int)
        },
        ReadProgress::Done(result) => {
            &&& status matches FrameStatus::Ready { payload_start, payload_end }
            &&& 0 <= payload_start <= payload_end <= received.len()
            &&& result.message@ == received.subrange(payload_start, payload_end)
            &&& result.total_bytes_read == received.len()
            &&& result.next_payload_index == if received.len() > payload_end {
                Some(payload_end as usize)
            } else {
                None
            }
        },
    }
}

/// Looks at the first `filled_len` bytes of `buffer`, which hold what has
/// been received, for a whole frame, searching for the end of the header
/// region from `search_from` on.
///
/// With a whole frame there, the result holds its payload and says where the
/// bytes of the next message begin, if the buffer holds any. With a part of
/// one, the result asks for more bytes. The errors are those of
/// [`frame_status`].
pub fn read_next_payload<'a>(buffer: &'a [u8], filled_len: usize, search_from: usize) -> (r: Result<
    ReadProgress<&'a [u8]>,
    StreamReadError,
>)
    requires
        filled_len <= buffer@.len(),
    ensures
        match r {
            Ok(progress) => frame_status(
                buffer@.take(filled_len as int),
                buffer@.len(),
                search_from as int,
            ) matches Ok(status) && progress_matches(
                progress,
                buffer@.take(filled_len as int),
                search_from as int,
                status,
            ),
            Err(e) => frame_status(
                buffer@.take(filled_len as int),
                buffer@.len(),
                search_from as int,
            ) == Err::<FrameStatus, ReadFailure>(e@),
        },
{
    let ghost received = buffer@.take(filled_len as int);
    proof {
        lemma_first_terminator_found(received, search_from as int);
    }
    let header_end = match find_terminator(buffer, filled_len, search_from) {
        Some(h) => h,
        None => {
            if filled_len == buffer.len() {
                return Err(
                    StreamReadError::BufferSmallerThanExpected {
                        min_expected: MAX_MESSAGE_SIZE,
                    },
                );
            }
            let resume_from: usize = if filled_len > 3 && search_from < filled_len - 3 {
                filled_len - 3
            } else {
                search_from
            };
            return Ok(ReadProgress::NeedMore { resume_from });
        },
    };
    let header = slice_subrange(buffer, 0, header_end);
    assert(header@ =~= received.take(header_end as int));
    let (version, length) = match parse_all_headers(header) {
        Ok(v) => v,
        Err(e) => return Err(e),
    };
    if version != CURRENT_PROTOCOL_VERSION {
        return Err(
            StreamReadError::UnsupportedProtocolVersion {
                found: version,
                expected: CURRENT_PROTOCOL_VERSION,
            },
        );
    }
    let payload_start: usize = header_end + 4;
    if length > buffer.len() - payload_start {
        let min_expected: usize = if length > usize::MAX - payload_start {
            usize::MAX
        } else {
            payload_start + length
        };
        return Err(StreamReadError::BufferSmallerThanExpected { min_expected });
    }
    let payload_end: usize = payload_start + length;
    if filled_len < payload_end {
        return Ok(ReadProgress::NeedMore { resume_from: header_end });
    }
    let payload = slice_subrange(buffer, payload_start, payload_end);
    assert(payload@ =~= received.subrange(payload_start as int, payload_end as int));
    let next_payload_index = if filled_len > payload_end {
        Some(payload_end)
    } else {
        None
    };
    Ok(
        ReadProgress::Done(
            ReadPayloadResult { message: payload, total_bytes_read: filled_len, next_payload_index },
        ),
    )
}

/// Accounts for what a read from the stream returned: `read` more bytes
/// stand behind the `filled_len` that the buffer held. A read of nothing
/// means that the peer has closed the stream, in the middle of a frame.
pub fn account_for_read(filled_len: usize, read: usize) -> (r: Result<usize, StreamReadError>)
    requires
        filled_len + read <= usize::MAX,
    ensures
        read == 0 ==> (r matches Err(e) && e@ == ReadFailure::UnexpectedEof),
        read > 0 ==> r == Ok::<usize, StreamReadError>((filled_len + read) as usize),
{
    if read == 0 {
        Err(StreamReadError::UnexpectedEof)
    } else {
        Ok(filled_len + read)
    }
}

/// Moves what the buffer holds of the next message to its front, once a
/// message has been dealt with, and returns how many bytes that is: the
/// bytes from `next_payload_index` up to `total_bytes_read`, or none. The
/// rest of the buffer stays as it was.
pub fn retain_unread(
    buffer: &mut [u8],
    next_payload_index: Option<usize>,
    total_bytes_read: usize,
) -> (filled_len: usize)
    requires
        total_bytes_read <= old(buffer)@.len(),
        next_payload_index matches Some(next) ==> next <= total_bytes_read,
    ensures
        final(buffer)@.len() == old(buffer)@.len(),
        match next_payload_index {
            Some(next) => filled_len == total_bytes_read - next && final(buffer)@.take(
                filled_len as int,
            ) == old(buffer)@.subrange(next as int, total_bytes_read as int)
                && final(buffer)@.skip(filled_len as int) == old(buffer)@.skip(filled_len as int),
            None => filled_len == 0 && final(buffer)@ == old(buffer)@,
        },
{
    let next = match next_payload_index {
        Some(next) => next,
        None => return 0,
    };
    let remaining: usize = total_bytes_read - next;
    let mut i: usize = 0;
    while i < remaining
        invariant
            i <= remaining,
            remaining == total_bytes_read - next,
            total_bytes_read <= buffer@.len(),
            buffer@.len() == old(buffer)@.len(),
            forall|k: int| 0 <= k < i ==> buffer@[k] == old(buffer)@[next + k],
            forall|k: int| i <= k < buffer@.len() ==> buffer@[k] == old(buffer)@[k],
        decreases remaining - i,
    {
        let b = buffer[next + i];
        buffer[i] = b;
        i += 1;
    }
    assert(buffer@.take(remaining as int) =~= old(buffer)@.subrange(
        next as int,
        total_bytes_read as int,
    ));
    assert(buffer@.skip(remaining as int) =~= old(buffer)@.skip(remaining as int));
    remaining
}

/// A line ends where the first line break stands.
proof fn lemma_line_end_at(s: Seq<u8>, from: int, e: int)
    requires
        0 <= from <= e <= s.len(),
        forall|i: int| from <= i < e ==> !is_line_break(#[trigger] s[i]),
        e < s.len() ==> is_line_break(s[e]),
    ensures
        line_end(s, from) == e,
    decreases e - from,
{
    if from < e {
        lemma_line_end_at(s, from + 1, e);
    }
}

/// A line begins behind the line breaks in front of it.
proof fn lemma_line_start_at(s: Seq<u8>, from: int, a: int)
    requires
        0 <= from <= a <= s.len(),
        forall|i: int| from <= i < a ==> is_line_break(#[trigger] s[i]),
        a < s.len() ==> !is_line_break(s[a]),
    ensures
        line_start(s, from) == a,
    decreases a - from,
{
    if from < a {
        lemma_line_start_at(s, from + 1, a);
    }
}

/// The header lines of a frame, byte by byte: the fixed text, then the
/// digits of the length.
proof fn lemma_frame_header_bytes(len: nat)
    ensures
        frame_header(len) == seq![
            0x56u8,
            0x65,
            0x72,
            0x3a,
            0x20,
            0x31,
            0x0d,
            0x0a,
            0x4c,
            0x65,
            0x6e,
            0x3a,
            0x20,
        ] + decimal(len),
{
    assert(decimal(1) =~= seq![0x31u8]);
    assert(VERSION_HEADER_PREFIX@ =~= seq![0x56u8, 0x65, 0x72, 0x3a, 0x20]);
    assert(LENGTH_HEADER_PREFIX@ =~= seq![0x4cu8, 0x65, 0x6e, 0x3a, 0x20]);
    assert(MESSAGE_DELIMITER@ =~= seq![0x0du8, 0x0a]);
    assert(frame_header(len) =~= seq![
        0x56u8,
        0x65,
        0x72,
        0x3a,
        0x20,
        0x31,
        0x0d,
        0x0a,
        0x4c,
        0x65,
        0x6e,
        0x3a,
        0x20,
    ] + decimal(len));
}

/// The header lines of a frame state version 1 and the length of its
/// payload.
pub proof fn lemma_parse_headers_of_frame_header(len: nat)
    requires
        len <= usize::MAX,
    ensures
        parse_headers(frame_header(len)) == Ok::<(u8, usize), ReadFailure>(
            (CURRENT_PROTOCOL_VERSION, len as usize),
        ),
{
    let h = frame_header(len);
    let d = decimal(len);
    lemma_frame_header_bytes(len);
    lemma_decimal_is_digits(len);
    lemma_decimal_is_digits(1);
    assert forall|i: int| 13 <= i < h.len() implies is_digit(#[trigger] h[i]) by {
        assert(h[i] == d[i - 13]);
    }
    assert(line_start(h, 0) == 0);
    lemma_line_end_at(h, 0, 6);
    lemma_line_start_at(h, 6, 8);
    lemma_line_end_at(h, 8, h.len() as int);
    let first = h.subrange(0, 6);
    assert(first =~= seq![0x56u8, 0x65, 0x72, 0x3a, 0x20, 0x31]);
    lemma_trim_of_trimmed(first);
    assert(first.skip(5) =~= decimal(1));
    lemma_trim_of_trimmed(decimal(1));
    lemma_parse_decimal_of_decimal(1, u8::MAX as nat);
    let second = h.subrange(8, h.len() as int);
    assert(second =~= seq![0x4cu8, 0x65, 0x6e, 0x3a, 0x20] + d);
    assert(is_digit(second.last()));
    lemma_trim_of_trimmed(second);
    assert(second.skip(5) =~= d);
    assert(is_digit(d[0]) && is_digit(d.last()));
    lemma_trim_of_trimmed(d);
    lemma_parse_decimal_of_decimal(len, usize::MAX as nat);
}

/// Bytes that begin with a frame hold a whole frame: its payload lies behind
/// the blank line and ends where the frame ends, whatever follows.
pub proof fn lemma_frame_status_of_frame(payload: Seq<u8>, rest: Seq<u8>, capacity: nat)
    requires
        payload.len() <= usize::MAX,
        frame(payload).len() <= capacity,
    ensures
        frame_status(frame(payload) + rest, capacity, 0) == Ok::<FrameStatus, ReadFailure>(
            FrameStatus::Ready {
                payload_start: frame(payload).len() - payload.len(),
                payload_end: frame(payload).len() as int,
            },
        ),
        (frame(payload) + rest).subrange(
            frame(payload).len() - payload.len(),
            frame(payload).len() as int,
        ) == payload,
{
    let len = payload.len();
    let h = frame_header(len);
    let d = decimal(len);
    let s = frame(payload) + rest;
    let hl = h.len() as int;
    lemma_frame_header_bytes(len);
    lemma_decimal_is_digits(len);
    assert(MESSAGE_DELIMITER@ =~= seq![0x0du8, 0x0a]);
    assert forall|i: int| 0 <= i < hl implies s[i] == h[i] by {}
    assert forall|i: int| 13 <= i < hl implies is_digit(#[trigger] h[i]) by {
        assert(h[i] == d[i - 13]);
    }
    assert(s[hl] == 0x0d && s[hl + 1] == 0x0a && s[hl + 2] == 0x0d && s[hl + 3] == 0x0a);
    assert(is_terminator_at(s, hl));
    assert forall|i: int| 0 <= i < hl implies !is_terminator_at(s, i) by {
        if i == 6 {
            assert(s[8] == h[8]);
        } else if i >= 13 {
            assert(is_digit(h[i]));
        }
    }
    lemma_first_terminator(s, 0, hl);
    assert(s.take(hl) =~= h);
    lemma_parse_headers_of_frame_header(len);
    assert(s.subrange(hl + 4, hl + 4 + len) =~= payload);
}

/// What a look at the received bytes yields when the payload is read as a
/// sender's message: nothing yet, or the message and where the bytes of the
/// next message begin, if any are there.
pub open spec fn sender_read_outcome(received: Seq<u8>, capacity: nat, search_from: int) -> Result<
    Option<(SenderMessage, Option<usize>)>,
    ReadFailure,
> {
    match frame_status(received, capacity, search_from) {
        Err(e) => Err(e),
        Ok(FrameStatus::NeedMore) => Ok(None),
        Ok(FrameStatus::Ready { payload_start, payload_end }) => match decode_sender(
            received.subrange(payload_start, payload_end),
        ) {
            Err(e) => Err(ReadFailure::PayloadParseError(e)),
            Ok(m) => Ok(
                Some(
                    (
                        m,
                        if received.len() > payload_end {
                            Some(payload_end as usize)
                        } else {
                            None
                        },
                    ),
                ),
            ),
        },
    }
}

/// What a look at the received bytes yields when the payload is read as a
/// receiver's message.
pub open spec fn receiver_read_outcome(
    received: Seq<u8>,
    capacity: nat,
    search_from: int,
) -> Result<Option<(ReceiverMessage, Option<usize>)>, ReadFailure> {
    match frame_status(received, capacity, search_from) {
        Err(e) => Err(e),
        Ok(FrameStatus::NeedMore) => Ok(None),
        Ok(FrameStatus::Ready { payload_start, payload_end }) => match decode_receiver(
            received.subrange(payload_start, payload_end),
        ) {
            Err(e) => Err(ReadFailure::PayloadParseError(e)),
            Ok(m) => Ok(
                Some(
                    (
                        m,
                        if received.len() > payload_end {
                            Some(payload_end as usize)
                        } else {
                            None
                        },
                    ),
                ),
            ),
        },
    }
}

/// Looks at the first `filled_len` bytes of `buffer` for a whole frame, as
/// [`read_next_payload`] does, and reads its payload as a sender's message.
pub fn read_sender_message<'a>(buffer: &'a [u8], filled_len: usize, search_from: usize) -> (r:
    Result<ReadProgress<SenderMessageV1<'a>>, StreamReadError>)
    requires
        filled_len <= buffer@.len(),
    ensures
        match r {
            Ok(ReadProgress::NeedMore { resume_from }) => {
                &&& sender_read_outcome(
                    buffer@.take(filled_len as int),
                    buffer@.len(),
                    search_from as int,
                ) == Ok::<Option<(SenderMessage, Option<usize>)>, ReadFailure>(None)
                &&& may_resume(
                    buffer@.take(filled_len as int),
                    search_from as int,
                    resume_from as int,
                )
            },
            Ok(ReadProgress::Done(result)) => {
                &&& sender_read_outcome(
                    buffer@.take(filled_len as int),
                    buffer@.len(),
                    search_from as int,
                ) == Ok::<Option<(SenderMessage, Option<usize>)>, ReadFailure>(
                    Some((result.message@, result.next_payload_index)),
                )
                &&& result.total_bytes_read == filled_len
                &&& result.next_payload_index matches Some(next) ==> next < filled_len
            },
            Err(e) => sender_read_outcome(
                buffer@.take(filled_len as int),
                buffer@.len(),
                search_from as int,
            ) == Err::<Option<(SenderMessage, Option<usize>)>, ReadFailure>(e@),
        },
{
    match read_next_payload(buffer, filled_len, search_from) {
        Err(e) => Err(e),
        Ok(ReadProgress::NeedMore { resume_from }) => Ok(ReadProgress::NeedMore { resume_from }),
        Ok(ReadProgress::Done(found)) => match SenderMessageV1::from_bytes(found.message) {
            Ok(message) => Ok(
                ReadProgress::Done(
                    ReadPayloadResult {
                        message,
                        total_bytes_read: found.total_bytes_read,
                        next_payload_index: found.next_payload_index,
                    },
                ),
            ),
            Err(TransportError::Serialization(e)) => Err(StreamReadError::PayloadParseError(e)),
        },
    }
}

/// Looks at the first `filled_len` bytes of `buffer` for a whole frame, as
/// [`read_next_payload`] does, and reads its payload as a receiver's message.
pub fn read_receiver_message(buffer: &[u8], filled_len: usize, search_from: usize) -> (r: Result<
    ReadProgress<ReceiverMessageV1>,
    StreamReadError,
>)
    requires
        filled_len <= buffer@.len(),
    ensures
        match r {
            Ok(ReadProgress::NeedMore { resume_from }) => {
                &&& receiver_read_outcome(
                    buffer@.take(filled_len as int),
                    buffer@.len(),
                    search_from as int,
                ) == Ok::<Option<(ReceiverMessage, Option<usize>)>, ReadFailure>(None)
                &&& may_resume(
                    buffer@.take(filled_len as int),
                    search_from as int,
                    resume_from as int,
                )
            },
            Ok(ReadProgress::Done(result)) => {
                &&& receiver_read_outcome(
                    buffer@.take(filled_len as int),
                    buffer@.len(),
                    search_from as int,
                ) == Ok::<Option<(ReceiverMessage, Option<usize>)>, ReadFailure>(
                    Some((result.message@, result.next_payload_index)),
                )
                &&& result.total_bytes_read == filled_len
                &&& result.next_payload_index matches Some(next) ==> next < filled_len
            },
            Err(e) => receiver_read_outcome(
                buffer@.take(filled_len as int),
                buffer@.len(),
                search_from as int,
            ) == Err::<Option<(ReceiverMessage, Option<usize>)>, ReadFailure>(e@),
        },
{
    match read_next_payload(buffer, filled_len, search_from) {
        Err(e) => Err(e),
        Ok(ReadProgress::NeedMore { resume_from }) => Ok(ReadProgress::NeedMore { resume_from }),
        Ok(ReadProgress::Done(found)) => match ReceiverMessageV1::from_bytes(found.message) {
            Ok(message) => Ok(
                ReadProgress::Done(
                    ReadPayloadResult {
                        message,
                        total_bytes_read: found.total_bytes_read,
                        next_payload_index: found.next_payload_index,
                    },
                ),
            ),
            Err(TransportError::Serialization(e)) => Err(StreamReadError::PayloadParseError(e)),
        },
    }
}

/// Frame round trip, sender to receiver: reading the frame of the encoding
/// of a message gives the message, and nothing is left over.
pub proof fn lemma_sender_frame_round_trip(m: SenderMessage, capacity: nat)
    requires
        m.well_formed(),
        m.encoding().len() <= usize::MAX,
        frame(m.encoding()).len() <= capacity,
    ensures
        sender_read_outcome(frame(m.encoding()), capacity, 0) == Ok::<
            Option<(SenderMessage, Option<usize>)>,
            ReadFailure,
        >(Some((m, None))),
{
    let payload = m.encoding();
    lemma_frame_status_of_frame(payload, Seq::empty(), capacity);
    assert(frame(payload) + Seq::<u8>::empty() =~= frame(payload));
    assert(payload.subrange(0, payload.len() as int) =~= payload);
    lemma_decode_sender_of_encoding(payload, m);
}

/// Frame round trip, receiver to sender: reading the frame of the encoding
/// of a message gives the message, and nothing is left over.
pub proof fn lemma_receiver_frame_round_trip(m: ReceiverMessage, capacity: nat)
    requires
        m.well_formed(),
        m.encoding().len() <= usize::MAX,
        frame(m.encoding()).len() <= capacity,
    ensures
        receiver_read_outcome(frame(m.encoding()), capacity, 0) == Ok::<
            Option<(ReceiverMessage, Option<usize>)>,
            ReadFailure,
        >(Some((m, None))),
{
    let payload = m.encoding();
    lemma_frame_status_of_frame(payload, Seq::empty(), capacity);
    assert(frame(payload) + Seq::<u8>::empty() =~= frame(payload));
    assert(payload.subrange(0, payload.len() as int) =~= payload);
    lemma_decode_receiver_of_encoding(payload, m);
}

/// Pipelining: of two frames written back to back, a look at the buffer
/// finds the payload of the first and reports that the second begins right
/// behind the first frame. What lies from there on is the second frame, whole
/// and unchanged, and a look at it alone finds the payload of the second
/// with nothing left over.
pub proof fn lemma_pipelined_frames(first: Seq<u8>, second: Seq<u8>, capacity: nat)
    requires
        first.len() <= usize::MAX,
        second.len() <= usize::MAX,
        frame(first).len() + frame(second).len() <= capacity,
    ensures
        ({
            let both = frame(first) + frame(second);
            let boundary = frame(first).len() as int;
            &&& frame_status(both, capacity, 0) == Ok::<FrameStatus, ReadFailure>(
                FrameStatus::Ready {
                    payload_start: boundary - first.len(),
                    payload_end: boundary,
                },
            )
            &&& both.subrange(boundary - first.len(), boundary) == first
            &&& both.len() > boundary
            &&& both.subrange(boundary, both.len() as int) == frame(second)
            &&& frame_status(frame(second), capacity, 0) == Ok::<FrameStatus, ReadFailure>(
                FrameStatus::Ready {
                    payload_start: frame(second).len() - second.len(),
                    payload_end: frame(second).len() as int,
                },
            )
            &&& frame(second).subrange(
                frame(second).len() - second.len(),
                frame(second).len() as int,
            ) == second
        }),
{
    let both = frame(first) + frame(second);
    lemma_frame_status_of_frame(first, frame(second), capacity);
    lemma_frame_status_of_frame(second, Seq::empty(), capacity);
    assert(frame(second) + Seq::<u8>::empty() =~= frame(second));
    assert(both.subrange(frame(first).len() as int, both.len() as int) =~= frame(second));
    assert(MESSAGE_DELIMITER@.len() == 2);
}

} // verus!

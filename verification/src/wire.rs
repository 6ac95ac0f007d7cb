//! Reading HTTP/1.1 messages from buffers of bytes: the start line, the header block,
//! chunked bodies and trailers. Each reader takes one buffer of what was received and
//! says how far it got, so that a caller that receives in pieces can call it again.

use vstd::prelude::*;
use vstd::utf8::{decode_utf8, encode_utf8_decode_utf8, valid_utf8};

use crate::headers::{parse_from_ok, spec_parse_from, HeaderView, Headers};
use crate::http_message::{from_utf8, MessageError, ReadResult};
use crate::text::{decimal, string_of_char, usize_to_string};

verus! {

pub open spec fn cr() -> u8 {
    13u8
}

pub open spec fn lf() -> u8 {
    10u8
}

/// The byte at `i` ends a CRLF.
pub open spec fn crlf_ends_at(r: Seq<u8>, i: int) -> bool {
    1 <= i < r.len() && r[i - 1] == cr() && r[i] == lf()
}

/// The byte at `i` ends a CRLF CRLF.
pub open spec fn blank_line_ends_at(r: Seq<u8>, i: int) -> bool {
    3 <= i < r.len() && r[i - 3] == cr() && r[i - 2] == lf() && r[i - 1] == cr() && r[i] == lf()
}

/// How scanning a buffer for the end of a part ended.
pub enum Scan {
    /// The part ended; reading went up to `up_to`.
    Finished { up_to: int, out: Seq<u8> },
    /// The buffer ended before the part did.
    Unfinished { out: Seq<u8> },
    /// What was written reached the limit.
    TooBig { out: Seq<u8> },
}

pub open spec fn scan_out(s: Scan) -> Seq<u8> {
    match s {
        Scan::Finished { out, .. } => out,
        Scan::Unfinished { out } => out,
        Scan::TooBig { out } => out,
    }
}

// ---------------------------------------------------------------- the start line

/// Scanning for the end of the start line: bytes other than CR and LF are written,
/// and the scan stops after the first CRLF.
pub open spec fn start_line_scan(r: Seq<u8>, i: int, w: Seq<u8>, limit: int) -> Scan
    decreases r.len() - i,
{
    if i < 0 || i >= r.len() {
        Scan::Unfinished { out: w }
    } else {
        let o = r[i];
        let w2 = if o != cr() && o != lf() {
            w.push(o)
        } else {
            w
        };
        if crlf_ends_at(r, i) {
            Scan::Finished { up_to: i + 1, out: w2 }
        } else if w2.len() == limit {
            Scan::TooBig { out: w2 }
        } else {
            start_line_scan(r, i + 1, w2, limit)
        }
    }
}

/// `"{text}{n}"`
pub open spec fn message_with_number(text: Seq<char>, n: nat) -> Seq<char> {
    text + decimal(n)
}

/// Reads the start line from `reader` into `writer` (without CR and LF), stopping after
/// the first CRLF. Gives whether the line ended and where reading stopped, or an error
/// when `writer` reaches `limit` bytes.
pub fn start_line_(reader: &[u8], writer: &mut Vec<u8>, limit: usize) -> (r: ReadResult)
    ensures
        ({
            let s = start_line_scan(reader@, 0, old(writer)@, limit as int);
            &&& final(writer)@ == scan_out(s)
            &&& match s {
                Scan::Finished { up_to, .. } => r == ReadResult::Read((true, up_to as usize)),
                Scan::Unfinished { .. } => r == ReadResult::Read(
                    (false, if reader@.len() > 0 { (reader@.len() - 1) as usize } else { 0 }),
                ),
                Scan::TooBig { .. } => r matches ReadResult::Error(MessageError::StartLineTooBig(m))
                    && m@ == message_with_number("Start line must be less than "@, reader@.len()),
            }
        }),
{
    let ghost w0 = writer@;
    let n = reader.len();
    let mut i: usize = 0;
    while i < n
        invariant
            n == reader@.len(),
            i <= n,
            w0 == old(writer)@,
            start_line_scan(reader@, 0, w0, limit as int) == start_line_scan(
                reader@,
                i as int,
                writer@,
                limit as int,
            ),
        decreases n - i,
    {
        let octet = reader[i];
        let ghost w_before = writer@;
        if octet != 13u8 && octet != 10u8 {
            writer.push(octet);
        }
        proof {
            let w2 = if octet != cr() && octet != lf() {
                w_before.push(octet)
            } else {
                w_before
            };
            assert(writer@ == w2);
            assert(start_line_scan(reader@, i as int, w_before, limit as int) == if crlf_ends_at(
                reader@,
                i as int,
            ) {
                Scan::Finished { up_to: i + 1, out: w2 }
            } else if w2.len() == limit {
                Scan::TooBig { out: w2 }
            } else {
                start_line_scan(reader@, i + 1, w2, limit as int)
            });
        }
        if i >= 1 && reader[i - 1] == 13u8 && octet == 10u8 {
            return ReadResult::Read((true, i + 1));
        }
        if writer.len() == limit {
            let mut m = "Start line must be less than ".to_owned();
            let num = usize_to_string(n);
            m.append(num.as_str());
            return ReadResult::Error(MessageError::StartLineTooBig(m));
        }
        i = i + 1;
    }
    let up_to = if n > 0 {
        n - 1
    } else {
        0
    };
    ReadResult::Read((false, up_to))
}

// ---------------------------------------------------------------- the header block

/// Scanning for the end of the header block: every byte is written, and at the first
/// CRLF CRLF the scan stops and those four bytes are taken back off.
pub open spec fn headers_scan(r: Seq<u8>, i: int, w: Seq<u8>, limit: int) -> Scan
    decreases r.len() - i,
{
    if i < 0 || i >= r.len() {
        Scan::Unfinished { out: w }
    } else {
        let w2 = w.push(r[i]);
        if blank_line_ends_at(r, i) {
            Scan::Finished { up_to: i + 1, out: w2.take(w2.len() - 4) }
        } else if w2.len() == limit {
            Scan::TooBig { out: w2 }
        } else {
            headers_scan(r, i + 1, w2, limit)
        }
    }
}

/// Reads the header block from `reader` into `writer`, stopping after the blank line
/// that ends it (which is not written). Gives whether the block ended and where reading
/// stopped, or an error when `writer` reaches `limit` bytes.
pub fn headers_(reader: &[u8], writer: &mut Vec<u8>, limit: usize) -> (r: ReadResult)
    requires
        reader@.len() > 0,
    ensures
        ({
            let s = headers_scan(reader@, 0, old(writer)@, limit as int);
            &&& final(writer)@ == scan_out(s)
            &&& match s {
                Scan::Finished { up_to, .. } => r == ReadResult::Read((true, up_to as usize)),
                Scan::Unfinished { .. } => r == ReadResult::Read((false, reader@.len() as usize)),
                Scan::TooBig { .. } => r matches ReadResult::Error(MessageError::HeadersTooBig(m))
                    && m@ == message_with_number("Headers must be less than "@, limit as nat),
            }
        }),
{
    let ghost w0 = writer@;
    let n = reader.len();
    let mut i: usize = 0;
    while i < n
        invariant
            n == reader@.len(),
            i <= n,
            w0 == old(writer)@,
            writer@ == w0 + reader@.take(i as int),
            headers_scan(reader@, 0, w0, limit as int) == headers_scan(
                reader@,
                i as int,
                writer@,
                limit as int,
            ),
        decreases n - i,
    {
        let octet = reader[i];
        writer.push(octet);
        proof {
            assert(writer@ =~= w0 + reader@.take(i + 1));
        }
        if i >= 3 && reader[i - 3] == 13u8 && reader[i - 2] == 10u8 && reader[i - 1] == 13u8
            && octet == 10u8 {
            let ghost full = writer@;
            writer.pop();
            writer.pop();
            writer.pop();
            writer.pop();
            proof {
                assert(writer@ =~= full.take(full.len() - 4));
            }
            return ReadResult::Read((true, i + 1));
        }
        if writer.len() == limit {
            let mut m = "Headers must be less than ".to_owned();
            let num = usize_to_string(limit);
            m.append(num.as_str());
            return ReadResult::Error(MessageError::HeadersTooBig(m));
        }
        i = i + 1;
    }
    ReadResult::Read((false, n))
}

// ---------------------------------------------------------------- trailers

/// Scanning for the end of the trailers: bytes are written until the CRLF CRLF that
/// ends them (whose last byte is not written).
pub open spec fn trailers_scan(r: Seq<u8>, i: int, w: Seq<u8>, limit: int) -> Scan
    decreases r.len() - i,
{
    if i < 0 || i >= r.len() {
        Scan::Unfinished { out: w }
    } else if blank_line_ends_at(r, i) {
        Scan::Finished { up_to: i, out: w }
    } else if w.len() == limit {
        Scan::TooBig { out: w }
    } else {
        trailers_scan(r, i + 1, w.push(r[i]), limit)
    }
}

/// The trailer text of a finished scan: what was written without the CRLF CR at its end.
pub open spec fn trailer_bytes(out: Seq<u8>) -> Seq<u8> {
    out.take(out.len() - 3)
}

/// Reading the trailers in `buffer` will not fail on their text: when they end there,
/// they are valid UTF-8 and every line holds a `": "`.
pub open spec fn trailers_readable(buffer: Seq<u8>, w: Seq<u8>, limit: int) -> bool {
    buffer.len() == 0 || match trailers_scan(buffer, 0, w, limit) {
        Scan::Finished { out, .. } => valid_utf8(trailer_bytes(out)) && parse_from_ok(
            decode_utf8(trailer_bytes(out)),
        ),
        _ => true,
    }
}

/// What reading the trailers gives, as views.
pub open spec fn trailers_result(
    buffer: Seq<u8>,
    w: Seq<u8>,
    limit: int,
    r: Result<(bool, Headers), MessageError>,
    w_after: Seq<u8>,
) -> bool {
    if buffer.len() == 0 {
        &&& r matches Ok((finished, h)) && finished && h@ == Seq::<HeaderView>::empty()
        &&& w_after == w
    } else {
        match trailers_scan(buffer, 0, w, limit) {
            Scan::Finished { out, .. } => {
                &&& r matches Ok((finished, h)) && finished && h@ == spec_parse_from(
                    decode_utf8(trailer_bytes(out)),
                )
                &&& w_after == trailer_bytes(out)
            },
            Scan::Unfinished { out } => {
                &&& r matches Ok((finished, h)) && !finished && h@ == Seq::<HeaderView>::empty()
                &&& w_after == out
            },
            Scan::TooBig { out } => {
                &&& r matches Err(MessageError::TrailersTooBig(m)) && m@ == message_with_number(
                    "Trailers must be less than "@,
                    limit as nat,
                )
                &&& w_after == out
            },
        }
    }
}

/// Writes the trailer bytes of `buffer` into `writer`, up to the blank line that ends them.
fn scan_trailers(buffer: &[u8], writer: &mut Vec<u8>, limit: usize) -> (r: (bool, bool))
    ensures
        ({
            let s = trailers_scan(buffer@, 0, old(writer)@, limit as int);
            &&& final(writer)@ == scan_out(s)
            &&& r.0 == (s is Finished)
            &&& r.1 == (s is TooBig)
            &&& s is Finished ==> scan_out(s).len() >= 3
        }),
{
    let ghost w0 = writer@;
    let n = buffer.len();
    let mut i: usize = 0;
    while i < n
        invariant
            n == buffer@.len(),
            i <= n,
            w0 == old(writer)@,
            writer@ == w0 + buffer@.take(i as int),
            trailers_scan(buffer@, 0, w0, limit as int) == trailers_scan(
                buffer@,
                i as int,
                writer@,
                limit as int,
            ),
        decreases n - i,
    {
        let octet = buffer[i];
        if i >= 3 && buffer[i - 3] == 13u8 && buffer[i - 2] == 10u8 && buffer[i - 1] == 13u8
            && octet == 10u8 {
            return (true, false);
        }
        if writer.len() == limit {
            return (false, true);
        }
        writer.push(octet);
        proof {
            assert(writer@ =~= w0 + buffer@.take(i + 1));
        }
        i = i + 1;
    }
    (false, false)
}

/// Reads trailers from `buffer` into `writer`, stopping at the blank line that ends them.
/// Gives whether they ended, with the trailers when they did, or an error when `writer`
/// reaches `limit` bytes.
pub fn trailers_(buffer: &[u8], writer: &mut Vec<u8>, limit: usize) -> (r: Result<
    (bool, Headers),
    MessageError,
>)
    requires
        trailers_readable(buffer@, old(writer)@, limit as int),
    ensures
        trailers_result(buffer@, old(writer)@, limit as int, r, final(writer)@),
{
    match trailers_or_unreadable(buffer, writer, limit) {
        Some(r) => r,
        None => {
            proof {
                assert(false);
            }
            unreached()
        },
    }
}

/// Reads trailers as `trailers_` does, giving `None` where their text cannot be read
/// (it is not UTF-8, or a line holds no `": "`).
pub fn trailers_or_unreadable(buffer: &[u8], writer: &mut Vec<u8>, limit: usize) -> (r: Option<
    Result<(bool, Headers), MessageError>,
>)
    ensures
        r is None <==> !trailers_readable(buffer@, old(writer)@, limit as int),
        r matches Some(res) ==> trailers_result(
            buffer@,
            old(writer)@,
            limit as int,
            res,
            final(writer)@,
        ),
{
    if buffer.len() == 0 {
        return Some(Ok((true, Headers::empty())));
    }
    let (finished, too_big) = scan_trailers(buffer, writer, limit);
    if too_big {
        let mut m = "Trailers must be less than ".to_owned();
        let num = usize_to_string(limit);
        m.append(num.as_str());
        return Some(Err(MessageError::TrailersTooBig(m)));
    }
    if !finished {
        return Some(Ok((false, Headers::empty())));
    }
    let ghost full = writer@;
    writer.pop();
    writer.pop();
    writer.pop();
    proof {
        assert(writer@ =~= trailer_bytes(full));
    }
    match from_utf8(writer.as_slice()) {
        None => None,
        Some(text) => {
            proof {
                encode_utf8_decode_utf8(text@);
            }
            match Headers::try_parse_from(text) {
                Some(h) => Some(Ok((true, h))),
                None => None,
            }
        },
    }
}


// ---------------------------------------------------------------- reading a part in passes

/// The part of a message's head being read.
#[derive(PartialEq, Eq, Structural, Debug, Clone, Copy)]
pub enum Part {
    StartLine,
    HeaderBlock,
}

/// Scanning `r` for the end of the part.
pub open spec fn part_scan(part: Part, r: Seq<u8>, w: Seq<u8>, limit: int) -> Scan {
    match part {
        Part::StartLine => start_line_scan(r, 0, w, limit),
        Part::HeaderBlock => headers_scan(r, 0, w, limit),
    }
}

/// How far the reader of the part says it got in `r` when the part did not end there.
pub open spec fn unfinished_up_to(part: Part, r: Seq<u8>) -> int {
    match part {
        Part::StartLine => if r.len() > 0 {
            r.len() - 1
        } else {
            0
        },
        Part::HeaderBlock => r.len() as int,
    }
}

/// Where reading starts in the buffer: at `up_to` when it goes on in the same buffer,
/// else at the start of what was just read.
pub open spec fn pass_start(up_to: usize) -> int {
    if up_to > 0 {
        up_to as int
    } else {
        0
    }
}

/// One pass of reading a part of a message's head. `buffer` holds `read_bytes` bytes
/// received; where `up_to > 0` reading goes on from there in the same buffer (and the
/// position it reached is counted from the start of the buffer), else it starts at the
/// beginning of what was just received. Gives whether the part ended and the new
/// position, or the reader's error. The header block must not start at the end of
/// what was received.
pub fn read_pass(
    part: Part,
    buffer: &[u8],
    read_bytes: usize,
    up_to: usize,
    writer: &mut Vec<u8>,
    limit: usize,
) -> (r: ReadResult)
    requires
        read_bytes <= buffer@.len(),
        up_to <= read_bytes,
        part == Part::HeaderBlock ==> pass_start(up_to) < read_bytes,
    ensures
        ({
            let seen = buffer@.subrange(pass_start(up_to), read_bytes as int);
            let s = part_scan(part, seen, old(writer)@, limit as int);
            &&& final(writer)@ == scan_out(s)
            &&& match s {
                Scan::Finished { up_to: u, .. } => r == ReadResult::Read(
                    (true, (pass_start(up_to) + u) as usize),
                ),
                Scan::Unfinished { .. } => r == ReadResult::Read(
                    (false, (pass_start(up_to) + unfinished_up_to(part, seen)) as usize),
                ),
                Scan::TooBig { .. } => match part {
                    Part::StartLine => r matches ReadResult::Error(MessageError::StartLineTooBig(m))
                        && m@ == message_with_number("Start line must be less than "@, seen.len()),
                    Part::HeaderBlock => r matches ReadResult::Error(MessageError::HeadersTooBig(m))
                        && m@ == message_with_number("Headers must be less than "@, limit as nat),
                },
            }
        }),
{
    let start: usize = if up_to > 0 {
        up_to
    } else {
        0
    };
    let seen = vstd::slice::slice_subrange(buffer, start, read_bytes);
    let result = match part {
        Part::StartLine => start_line_(seen, writer, limit),
        Part::HeaderBlock => headers_(seen, writer, limit),
    };
    proof {
        lemma_scan_up_to_bound(part, seen@, old(writer)@, limit as int);
    }
    match result {
        ReadResult::Read((finished, got)) => ReadResult::Read((finished, start + got)),
        ReadResult::Error(e) => ReadResult::Error(e),
    }
}

proof fn lemma_scan_up_to_bound(part: Part, r: Seq<u8>, w: Seq<u8>, limit: int)
    ensures
        part_scan(part, r, w, limit) matches Scan::Finished { up_to, .. } ==> 0 <= up_to
            <= r.len(),
{
    match part {
        Part::StartLine => lemma_start_line_up_to(r, 0, w, limit),
        Part::HeaderBlock => lemma_headers_up_to(r, 0, w, limit),
    }
}

proof fn lemma_start_line_up_to(r: Seq<u8>, i: int, w: Seq<u8>, limit: int)
    requires
        0 <= i,
    ensures
        start_line_scan(r, i, w, limit) matches Scan::Finished { up_to, .. } ==> i < up_to
            <= r.len(),
    decreases r.len() - i,
{
    if i < r.len() {
        let w2 = if r[i] != cr() && r[i] != lf() {
            w.push(r[i])
        } else {
            w
        };
        lemma_start_line_up_to(r, i + 1, w2, limit);
    }
}

proof fn lemma_headers_up_to(r: Seq<u8>, i: int, w: Seq<u8>, limit: int)
    requires
        0 <= i,
    ensures
        headers_scan(r, i, w, limit) matches Scan::Finished { up_to, .. } ==> i < up_to <= r.len(),
    decreases r.len() - i,
{
    if i < r.len() {
        lemma_headers_up_to(r, i + 1, w.push(r[i]), limit);
    }
}

// ---------------------------------------------------------------- chunked bodies

#[derive(PartialEq, Eq, Structural, Debug, Clone, Copy)]
pub enum ChunkMode {
    /// reading a chunk size and the line break after it
    Metadata,
    /// reading the bytes of a chunk
    Read,
}

/// Where decoding a chunked body stands.
pub struct ChunkState {
    pub mode: ChunkMode,
    /// the size of the current chunk
    pub size: int,
    /// the bytes of the current chunk read in earlier buffers
    pub earlier: int,
    /// the bytes of the current chunk read in this buffer
    pub current: int,
    /// the body bytes counted so far in this buffer
    pub total: int,
    /// what has been written
    pub out: Seq<u8>,
}

/// How decoding one buffer of a chunked body ended.
pub enum Chunks {
    /// The buffer ended, or the last (zero) chunk was reached (`finished`).
    Stopped { finished: bool, st: ChunkState, trailers_at: int },
    /// A chunk size held a byte that is not a decimal digit.
    BadDigit { octet: u8, out: Seq<u8> },
    /// A chunk size did not fit in `usize`.
    Overflow,
}

pub open spec fn is_digit_byte(o: u8) -> bool {
    48 <= o <= 57
}

/// Decoding a chunked body from index `i` of `r`: sizes are decimal, each followed by a
/// line break; a chunk's bytes are copied out; a zero size ends the body.
pub open spec fn chunk_scan(r: Seq<u8>, i: int, st: ChunkState) -> Chunks
    decreases r.len() - i,
{
    if i < 0 || i >= r.len() {
        Chunks::Stopped { finished: false, st, trailers_at: 0 }
    } else {
        let o = r[i];
        let boundary = o == lf() || o == cr();
        match st.mode {
            ChunkMode::Metadata => {
                if !boundary {
                    if !is_digit_byte(o) {
                        Chunks::BadDigit { octet: o, out: st.out }
                    } else {
                        let size = st.size * 10 + (o - 48);
                        if size > usize::MAX {
                            Chunks::Overflow
                        } else if size == 0 {
                            Chunks::Stopped {
                                finished: true,
                                st: ChunkState { size, ..st },
                                trailers_at: i + 3,
                            }
                        } else {
                            chunk_scan(r, i + 1, ChunkState { size, ..st })
                        }
                    }
                } else if o == lf() {
                    chunk_scan(r, i + 1, ChunkState { mode: ChunkMode::Read, ..st })
                } else {
                    chunk_scan(r, i + 1, st)
                }
            },
            ChunkMode::Read => {
                if st.current < st.size - st.earlier {
                    let current = st.current + 1;
                    let out = st.out.push(o);
                    if i == r.len() - 1 {
                        Chunks::Stopped {
                            finished: false,
                            st: ChunkState {
                                earlier: st.earlier + current,
                                total: st.total + current,
                                current,
                                out,
                                ..st
                            },
                            trailers_at: i + 3,
                        }
                    } else {
                        chunk_scan(r, i + 1, ChunkState { current, out, ..st })
                    }
                } else if boundary {
                    if o == lf() {
                        chunk_scan(
                            r,
                            i + 1,
                            ChunkState {
                                mode: ChunkMode::Metadata,
                                size: 0,
                                earlier: 0,
                                current: 0,
                                total: st.total + st.current,
                                out: st.out,
                            },
                        )
                    } else {
                        chunk_scan(r, i + 1, st)
                    }
                } else {
                    chunk_scan(r, i + 1, st)
                }
            },
        }
    }
}

/// The state decoding starts a buffer in.
pub open spec fn chunk_start(mode: ChunkMode, earlier: int, size: int, out: Seq<u8>) -> ChunkState {
    ChunkState { mode, size, earlier, current: 0, total: 0, out }
}

/// What decoding a buffer gives, as the tuple `(finished, mode, total, earlier, size,
/// trailers_at)`, or the error.
pub open spec fn chunks_result(
    c: Chunks,
    r: Result<(bool, ChunkMode, usize, usize, usize, usize), MessageError>,
    w_after: Seq<u8>,
) -> bool {
    match c {
        Chunks::Stopped { finished, st, trailers_at } => {
            &&& r matches Ok(t) && t.0 == finished && t.1 == st.mode && t.2 == st.total && t.3
                == st.earlier && t.4 == st.size && t.5 == trailers_at
            &&& w_after == st.out
        },
        Chunks::BadDigit { octet, out } => {
            &&& r matches Err(MessageError::InvalidBoundaryDigit(m)) && m@
                == "Could not parse boundary character "@ + seq![octet as char]
                + " in chunked encoding"@
            &&& w_after == out
        },
        Chunks::Overflow => false,
    }
}

/// The message for a byte that is not a digit.
fn bad_digit_message(octet: u8) -> (r: String)
    ensures
        r@ == "Could not parse boundary character "@ + seq![octet as char] + " in chunked encoding"@,
{
    let mut m = "Could not parse boundary character ".to_owned();
    let c = char_of_byte(octet);
    m.append(c.as_str());
    m.append(" in chunked encoding");
    m
}

/// The one-character string of a byte read as a Latin-1 character.
fn char_of_byte(octet: u8) -> (r: String)
    ensures
        r@ == seq![octet as char],
{
    string_of_char(octet as char)
}

/// Decodes one buffer of a chunked body into `writer` (see `chunk_scan`). `mode`,
/// `read_up_to` and `this_chunk_size` say where the previous buffer left off. Gives
/// `None` when a chunk size does not fit in `usize`.
pub fn decode_chunks(
    reader: &[u8],
    writer: &mut Vec<u8>,
    mode: ChunkMode,
    read_up_to: usize,
    this_chunk_size: usize,
) -> (r: Option<Result<(bool, ChunkMode, usize, usize, usize, usize), MessageError>>)
    requires
        read_up_to <= this_chunk_size,
        reader@.len() <= usize::MAX - 3,
    ensures
        ({
            let c = chunk_scan(
                reader@,
                0,
                chunk_start(mode, read_up_to as int, this_chunk_size as int, old(writer)@),
            );
            &&& r is None <==> c is Overflow
            &&& r matches Some(res) ==> chunks_result(c, res, final(writer)@)
        }),
{
    let ghost w0 = writer@;
    let ghost c0 = chunk_scan(
        reader@,
        0,
        chunk_start(mode, read_up_to as int, this_chunk_size as int, old(writer)@),
    );
    let n = reader.len();
    let mut cur_mode = mode;
    let mut chunk_size: usize = this_chunk_size;
    let mut bytes_of_this_chunk_read: usize = read_up_to;
    let mut bytes_read_from_current_chunk: usize = 0;
    let mut total_bytes_read: usize = 0;
    let mut i: usize = 0;
    while i < n
        invariant
            n == reader@.len(),
            n <= usize::MAX - 3,
            i <= n,
            w0 == old(writer)@,
            c0 == chunk_scan(
                reader@,
                0,
                chunk_start(mode, read_up_to as int, this_chunk_size as int, w0),
            ),
            bytes_of_this_chunk_read <= chunk_size,
            bytes_read_from_current_chunk <= chunk_size - bytes_of_this_chunk_read,
            total_bytes_read + bytes_read_from_current_chunk <= i,
            c0 == chunk_scan(
                reader@,
                i as int,
                ChunkState {
                    mode: cur_mode,
                    size: chunk_size as int,
                    earlier: bytes_of_this_chunk_read as int,
                    current: bytes_read_from_current_chunk as int,
                    total: total_bytes_read as int,
                    out: writer@,
                },
            ),
        decreases n - i,
    {
        let octet = reader[i];
        let on_boundary = octet == 10u8 || octet == 13u8;
        match cur_mode {
            ChunkMode::Metadata => {
                if !on_boundary {
                    if octet < 48u8 || octet > 57u8 {
                        proof {
                            assert(c0 == Chunks::BadDigit { octet, out: writer@ });
                        }
                        let m = bad_digit_message(octet);
                        return Some(Err(MessageError::InvalidBoundaryDigit(m)));
                    }
                    let d = (octet - 48u8) as usize;
                    if chunk_size > (usize::MAX - d) / 10 {
                        proof {
                            assert(chunk_size * 10 + d > usize::MAX) by (nonlinear_arith)
                                requires
                                    chunk_size > (usize::MAX - d) / 10,
                                    d <= 9,
                            ;
                        }
                        return None;
                    }
                    proof {
                        assert(chunk_size * 10 + d <= usize::MAX) by (nonlinear_arith)
                            requires
                                chunk_size <= (usize::MAX - d) / 10,
                                d <= 9,
                        ;
                        assert(chunk_size * 10 + d >= chunk_size) by (nonlinear_arith)
                            requires
                                d >= 0,
                        ;
                    }
                    chunk_size = chunk_size * 10 + d;
                    if chunk_size == 0 {
                        return Some(
                            Ok(
                                (
                                    true,
                                    cur_mode,
                                    total_bytes_read,
                                    bytes_of_this_chunk_read,
                                    chunk_size,
                                    i + 3,
                                ),
                            ),
                        );
                    }
                } else if octet == 10u8 {
                    cur_mode = ChunkMode::Read;
                }
            },
            ChunkMode::Read => {
                if bytes_read_from_current_chunk < chunk_size - bytes_of_this_chunk_read {
                    writer.push(octet);
                    bytes_read_from_current_chunk = bytes_read_from_current_chunk + 1;
                    if i == n - 1 {
                        bytes_of_this_chunk_read = bytes_of_this_chunk_read
                            + bytes_read_from_current_chunk;
                        total_bytes_read = total_bytes_read + bytes_read_from_current_chunk;
                        return Some(
                            Ok(
                                (
                                    false,
                                    cur_mode,
                                    total_bytes_read,
                                    bytes_of_this_chunk_read,
                                    chunk_size,
                                    i + 3,
                                ),
                            ),
                        );
                    }
                } else if on_boundary {
                    if octet == 10u8 {
                        total_bytes_read = total_bytes_read + bytes_read_from_current_chunk;
                        bytes_of_this_chunk_read = 0;
                        chunk_size = 0;
                        bytes_read_from_current_chunk = 0;
                        cur_mode = ChunkMode::Metadata;
                    }
                }
            },
        }
        i = i + 1;
    }
    Some(Ok((false, cur_mode, total_bytes_read, bytes_of_this_chunk_read, chunk_size, 0)))
}

/// No chunk size in `reader` overflows `usize` when decoding from the given position.
pub open spec fn chunk_sizes_fit(
    reader: Seq<u8>,
    mode: ChunkMode,
    read_up_to: usize,
    this_chunk_size: usize,
    w: Seq<u8>,
) -> bool {
    !(chunk_scan(reader, 0, chunk_start(mode, read_up_to as int, this_chunk_size as int, w)) is Overflow)
}

/// Decodes one buffer of a chunked body into `writer` (see `chunk_scan`); the chunk
/// sizes must fit in `usize`.
pub fn body_chunks_(
    reader: &[u8],
    writer: &mut Vec<u8>,
    mode: ChunkMode,
    read_up_to: usize,
    this_chunk_size: usize,
) -> (r: Result<(bool, ChunkMode, usize, usize, usize, usize), MessageError>)
    requires
        read_up_to <= this_chunk_size,
        reader@.len() <= usize::MAX - 3,
        chunk_sizes_fit(reader@, mode, read_up_to, this_chunk_size, old(writer)@),
    ensures
        chunks_result(
            chunk_scan(
                reader@,
                0,
                chunk_start(mode, read_up_to as int, this_chunk_size as int, old(writer)@),
            ),
            r,
            final(writer)@,
        ),
{
    match decode_chunks(reader, writer, mode, read_up_to, this_chunk_size) {
        Some(r) => r,
        None => {
            proof {
                assert(false);
            }
            unreached()
        },
    }
}

} // verus!

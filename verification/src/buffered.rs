//! Reading a message whose head sits whole in one buffer: where its start line ends,
//! where its header block ends, where its body starts, and how much of the body is in
//! the buffer.

use vstd::prelude::*;

use crate::wire::{cr, lf};

verus! {

/// The byte at `j`, or `0` before the start or past the end.
pub open spec fn byte_or_zero(b: Seq<u8>, j: int) -> u8 {
    if 0 <= j < b.len() {
        b[j]
    } else {
        0
    }
}

/// The two bytes before `i` are CRLF.
pub open spec fn crlf_before(b: Seq<u8>, i: int) -> bool {
    byte_or_zero(b, i - 2) == cr() && byte_or_zero(b, i - 1) == lf()
}

/// The four bytes before `i` are CRLF CRLF.
pub open spec fn blank_line_before(b: Seq<u8>, i: int) -> bool {
    byte_or_zero(b, i - 4) == cr() && byte_or_zero(b, i - 3) == lf() && crlf_before(b, i)
}

/// Scanning the buffer from `i`, with the end of the start line found at `first` (if it
/// was): the start line ends after the first CRLF, and the head ends at the first CRLF
/// CRLF seen once the start line ended (checked before each byte, so not after the last
/// one). Gives the end of the start line, the end of the header block (before the blank
/// line) and the start of the body.
pub open spec fn head_scan(b: Seq<u8>, i: int, first: Option<int>) -> Option<(int, int, int)>
    decreases b.len() - i,
{
    if i < 0 || i >= b.len() {
        None
    } else {
        let first2 = if first is None && crlf_before(b, i) {
            Some(i)
        } else {
            first
        };
        if first2 is Some && blank_line_before(b, i) {
            Some((first2.unwrap(), i - 4, i))
        } else {
            head_scan(b, i + 1, first2)
        }
    }
}

/// Where the parts of a buffered message's head are.
pub struct HeadParts {
    /// the start line with its CRLF is `buffer[..first_line_end]`
    pub first_line_end: usize,
    /// the header block is `buffer[first_line_end..headers_end]`
    pub headers_end: usize,
    /// the body starts at `body_start`
    pub body_start: usize,
}

/// Finds the parts of the head in the buffer (see `head_scan`), or `None` when the
/// head does not end in it.
pub fn split_head(buffer: &[u8]) -> (r: Option<HeadParts>)
    ensures
        match r {
            Some(p) => head_scan(buffer@, 0, None) == Some(
                (p.first_line_end as int, p.headers_end as int, p.body_start as int),
            ),
            None => head_scan(buffer@, 0, None) is None,
        },
{
    let n = buffer.len();
    let mut first: Option<usize> = None;
    let mut i: usize = 0;
    while i < n
        invariant
            n == buffer@.len(),
            i <= n,
            first matches Some(f) ==> f <= i,
            head_scan(buffer@, 0, None) == head_scan(
                buffer@,
                i as int,
                match first {
                    Some(f) => Some(f as int),
                    None => None,
                },
            ),
        decreases n - i,
    {
        let crlf = i >= 2 && buffer[i - 2] == 13u8 && buffer[i - 1] == 10u8;
        proof {
            assert(crlf == crlf_before(buffer@, i as int));
        }
        if first.is_none() && crlf {
            first = Some(i);
        }
        let blank = i >= 4 && buffer[i - 4] == 13u8 && buffer[i - 3] == 10u8 && crlf;
        proof {
            assert(blank == blank_line_before(buffer@, i as int));
        }
        if blank {
            if let Some(f) = first {
                return Some(HeadParts { first_line_end: f, headers_end: i - 4, body_start: i });
            }
        }
        i = i + 1;
    }
    None
}

/// How the body of a buffered message is to be read.
#[derive(PartialEq, Eq, Structural, Debug, Clone, Copy)]
pub enum BufferedBody {
    /// no body
    Empty,
    /// the body is `buffer[start..end]`
    InBuffer(usize, usize),
    /// the body is `buffer[start..end]` followed by this many bytes from the connection
    BufferThenStream(usize, usize, u64),
    /// the body is this many bytes from the connection
    Stream(u64),
}

/// How to read a body of `content_length` bytes (if given) that starts at `body_start`
/// in a buffer of `buffer_len` bytes, of which `first_read` were received. Where the
/// body does not fit in the buffer, what was received after the head is kept only when
/// `keep_received` is set.
pub open spec fn spec_buffered_body(
    content_length: Option<usize>,
    body_start: nat,
    buffer_len: nat,
    first_read: nat,
    keep_received: bool,
) -> BufferedBody {
    match content_length {
        Some(n) => if n + body_start <= buffer_len {
            BufferedBody::InBuffer(body_start as usize, (body_start + n) as usize)
        } else if keep_received && first_read > body_start {
            BufferedBody::BufferThenStream(
                body_start as usize,
                first_read as usize,
                (n - (first_read - body_start)) as u64,
            )
        } else {
            BufferedBody::Stream(n as u64)
        },
        None => BufferedBody::Empty,
    }
}

pub fn buffered_body(
    content_length: Option<usize>,
    body_start: usize,
    buffer_len: usize,
    first_read: usize,
    keep_received: bool,
) -> (r: BufferedBody)
    requires
        body_start <= buffer_len,
        first_read <= buffer_len,
    ensures
        r == spec_buffered_body(
            content_length,
            body_start as nat,
            buffer_len as nat,
            first_read as nat,
            keep_received,
        ),
{
    match content_length {
        Some(n) => {
            if n <= buffer_len - body_start {
                BufferedBody::InBuffer(body_start, body_start + n)
            } else if keep_received && first_read > body_start {
                BufferedBody::BufferThenStream(
                    body_start,
                    first_read,
                    (n - (first_read - body_start)) as u64,
                )
            } else {
                BufferedBody::Stream(n as u64)
            }
        },
        None => BufferedBody::Empty,
    }
}

} // verus!

//! Writing bodies in the chunked transfer coding, and the proof that the chunk decoder
//! reads back what the writers write.

use vstd::prelude::*;
use vstd::string::StringSliceAdditionalSpecFns;
use vstd::slice::slice_subrange;
use vstd::utf8::{encode_scalar, encode_utf8};

use crate::headers::{spec_wire_string, HeaderView, Headers};
use crate::text::{
    all_digits, crlf, crlf_str, decimal, digit_value, digits_value, is_digit, lemma_decimal_digits,
    lemma_digits_value_monotone, usize_to_string,
};
use crate::wire::{chunk_scan, chunk_start, cr, is_digit_byte, lf, ChunkMode, ChunkState, Chunks};

verus! {

/// The bytes of ASCII text.
pub open spec fn ascii_bytes(s: Seq<char>) -> Seq<u8> {
    Seq::new(s.len(), |i: int| (s[i] as u32) as u8)
}

/// The size line of a chunk of `n` bytes: its decimal length.
pub open spec fn size_digits(n: nat) -> Seq<u8> {
    ascii_bytes(decimal(n))
}

pub open spec fn crlf_bytes() -> Seq<u8> {
    seq![cr(), lf()]
}

/// One chunk on the wire: its size, CRLF, its bytes, CRLF.
pub open spec fn frame(c: Seq<u8>) -> Seq<u8> {
    size_digits(c.len()) + crlf_bytes() + c + crlf_bytes()
}

/// The chunks on the wire, one after another.
pub open spec fn frames(cs: Seq<Seq<u8>>) -> Seq<u8>
    decreases cs.len(),
{
    if cs.len() == 0 {
        Seq::empty()
    } else {
        frame(cs[0]) + frames(cs.drop_first())
    }
}

/// All chunks, one after another.
pub open spec fn concat_all(cs: Seq<Seq<u8>>) -> Seq<u8>
    decreases cs.len(),
{
    if cs.len() == 0 {
        Seq::empty()
    } else {
        cs[0] + concat_all(cs.drop_first())
    }
}

/// The end of a chunked body: the zero chunk's size line, then the trailers (if any)
/// and a blank line.
pub open spec fn chunked_end(trailers: Seq<HeaderView>) -> Seq<char> {
    seq!['0'] + crlf() + if trailers.len() > 0 {
        spec_wire_string(trailers) + crlf() + crlf()
    } else {
        Seq::empty()
    }
}

/// A string body sent as one chunk: its byte length `n`, CRLF, the text, CRLF, then the end.
pub open spec fn chunked_tail(text: Seq<char>, n: nat, trailers: Seq<HeaderView>) -> Seq<char> {
    decimal(n) + crlf() + text + crlf() + chunked_end(trailers)
}

/// The most bytes sent in one chunk of a stream.
pub open spec fn stream_chunk_size() -> nat {
    16384
}

/// A byte body cut into chunks of at most 16384 bytes.
pub open spec fn stream_chunks(body: Seq<u8>) -> Seq<Seq<u8>>
    decreases body.len(),
{
    if body.len() == 0 {
        Seq::empty()
    } else if body.len() <= stream_chunk_size() {
        seq![body]
    } else {
        seq![body.take(stream_chunk_size() as int)] + stream_chunks(
            body.skip(stream_chunk_size() as int),
        )
    }
}

/// What is written for a byte body in the chunked coding: the head with the first
/// chunk, the other chunks, then the end. A body with no bytes writes only the end.
pub open spec fn chunked_stream(head: Seq<u8>, body: Seq<u8>, trailers: Seq<HeaderView>) -> Seq<u8> {
    if body.len() == 0 {
        encode_utf8(chunked_end(trailers))
    } else {
        head + frames(stream_chunks(body)) + encode_utf8(chunked_end(trailers))
    }
}

// ---------------------------------------------------------------- writers

/// The message head followed by a string body sent as one chunk and the end of the
/// chunked body (with the trailers, if any).
pub fn write_chunked_string(first_line: String, chunk: &str, trailers: &Headers) -> (r: String)
    ensures
        r@ == first_line@ + chunked_tail(chunk@, chunk.len() as nat, trailers@),
{
    let mut out = first_line;
    let length = usize_to_string(chunk.len());
    out.append(length.as_str());
    out.append(crlf_str());
    out.append(chunk);
    out.append(crlf_str());
    let end = chunked_end_string(trailers);
    out.append(end.as_str());
    proof {
        assert(out@ =~= first_line@ + chunked_tail(chunk@, chunk.len() as nat, trailers@));
    }
    out
}

/// The end of a chunked body as text.
pub fn chunked_end_string(trailers: &Headers) -> (r: String)
    ensures
        r@ == chunked_end(trailers@),
{
    proof {
        reveal_strlit("0");
    }
    let mut out = "0".to_owned();
    out.append(crlf_str());
    if !trailers.is_empty() {
        let wire = trailers.to_wire_string();
        out.append(wire.as_str());
        out.append(crlf_str());
        out.append(crlf_str());
    }
    proof {
        assert(out@ =~= chunked_end(trailers@));
    }
    out
}

/// Appends the bytes of `s` to `out`.
fn push_str_bytes(out: &mut Vec<u8>, s: &str)
    ensures
        final(out)@ == old(out)@ + s.spec_bytes(),
{
    let bytes = s.as_bytes_vec();
    push_bytes(out, bytes.as_slice());
}

/// Appends `bytes` to `out`.
pub fn push_bytes(out: &mut Vec<u8>, bytes: &[u8])
    ensures
        final(out)@ == old(out)@ + bytes@,
{
    let ghost start = out@;
    let mut i: usize = 0;
    while i < bytes.len()
        invariant
            i <= bytes@.len(),
            out@ == start + bytes@.take(i as int),
            start == old(out)@,
        decreases bytes@.len() - i,
    {
        out.push(bytes[i]);
        proof {
            assert(out@ =~= start + bytes@.take(i + 1));
        }
        i = i + 1;
    }
    proof {
        assert(bytes@.take(i as int) =~= bytes@);
    }
}

/// One chunk on the wire (see `frame`).
pub fn chunk_frame(out: &mut Vec<u8>, c: &[u8])
    ensures
        final(out)@ == old(out)@ + frame(c@),
{
    let size = usize_to_string(c.len());
    push_str_bytes(out, size.as_str());
    out.push(13u8);
    out.push(10u8);
    push_bytes(out, c);
    out.push(13u8);
    out.push(10u8);
    proof {
        lemma_decimal_ascii(c@.len());
        lemma_ascii_encode(decimal(c@.len()));
        assert(final(out)@ =~= old(out)@ + frame(c@));
    }
}

/// The byte sequences of a list of reads.
pub open spec fn read_views(reads: Seq<Vec<u8>>) -> Seq<Seq<u8>> {
    Seq::new(reads.len(), |i: int| reads[i]@)
}

/// What is written for a body read in pieces (each read not empty), in the chunked
/// coding: the head, each read as a chunk of its own, then the end. A body that gave no
/// read writes only the end.
pub open spec fn chunked_reads(head: Seq<u8>, reads: Seq<Seq<u8>>, trailers: Seq<HeaderView>) -> Seq<u8> {
    if reads.len() == 0 {
        encode_utf8(chunked_end(trailers))
    } else {
        head + frames(reads) + encode_utf8(chunked_end(trailers))
    }
}

/// A byte body in memory, read into a buffer of 16384 bytes: the reads are its pieces of
/// at most 16384 bytes, in order.
pub fn stream_reads(body: &[u8]) -> (r: Vec<Vec<u8>>)
    ensures
        read_views(r@) == stream_chunks(body@),
        all_nonempty(read_views(r@)),
{
    let mut out: Vec<Vec<u8>> = Vec::new();
    let n = body.len();
    let mut pos: usize = 0;
    proof {
        assert(body@.skip(0) =~= body@);
        assert(read_views(out@) + stream_chunks(body@.skip(0)) =~= stream_chunks(body@));
    }
    while pos < n
        invariant
            n == body@.len(),
            pos <= n,
            read_views(out@) + stream_chunks(body@.skip(pos as int)) == stream_chunks(body@),
        decreases n - pos,
    {
        let k: usize = if n - pos > 16384 {
            16384
        } else {
            n - pos
        };
        let mut piece: Vec<u8> = Vec::new();
        push_bytes(&mut piece, slice_subrange(body, pos, pos + k));
        let ghost before = out@;
        out.push(piece);
        proof {
            let rest = body@.skip(pos as int);
            assert(rest.take(k as int) =~= body@.subrange(pos as int, pos + k));
            assert(rest.skip(k as int) =~= body@.skip(pos + k));
            assert(read_views(out@) =~= read_views(before).push(body@.subrange(pos as int, pos + k)));
            if rest.len() <= stream_chunk_size() {
                assert(rest =~= body@.subrange(pos as int, pos + k));
                assert(body@.skip(pos + k) =~= Seq::<u8>::empty());
                assert(stream_chunks(rest) == seq![rest]);
            } else {
                assert(stream_chunks(rest) == seq![rest.take(k as int)] + stream_chunks(rest.skip(k as int)));
            }
            assert(read_views(out@) + stream_chunks(body@.skip(pos + k)) =~= read_views(before)
                + stream_chunks(rest));
        }
        pos = pos + k;
    }
    proof {
        assert(body@.skip(n as int) =~= Seq::<u8>::empty());
        assert(read_views(out@) + Seq::<Seq<u8>>::empty() =~= read_views(out@));
        lemma_stream_chunks(body@);
    }
    out
}

/// The head followed by each read as a chunk of its own and the end of the chunked body
/// (see `chunked_reads`); when there was no read, only the end. A read is never empty
/// (an empty read ends the body).
pub fn write_chunked_stream(first_line_and_headers: &String, reads: &Vec<Vec<u8>>, trailers: &Headers) -> (r: Vec<u8>)
    requires
        all_nonempty(read_views(reads@)),
    ensures
        r@ == chunked_reads(encode_utf8(first_line_and_headers@), read_views(reads@), trailers@),
{
    let mut out: Vec<u8> = Vec::new();
    let end = chunked_end_string(trailers);
    let n = reads.len();
    if n == 0 {
        push_str_bytes(&mut out, end.as_str());
        proof {
            assert(out@ =~= encode_utf8(chunked_end(trailers@)));
        }
        return out;
    }
    push_str_bytes(&mut out, first_line_and_headers.as_str());
    let ghost head = out@;
    let ghost cs = read_views(reads@);
    proof {
        assert(cs.skip(0) =~= cs);
        assert(head + frames(cs) =~= out@ + frames(cs.skip(0)));
    }
    let mut i: usize = 0;
    while i < n
        invariant
            n == reads@.len(),
            cs == read_views(reads@),
            i <= n,
            head == encode_utf8(first_line_and_headers@),
            head + frames(cs) == out@ + frames(cs.skip(i as int)),
        decreases n - i,
    {
        let ghost before = out@;
        chunk_frame(&mut out, reads[i].as_slice());
        proof {
            assert(cs.skip(i as int)[0] == reads@[i as int]@);
            assert(cs.skip(i as int).drop_first() =~= cs.skip(i + 1));
            assert(before + frames(cs.skip(i as int)) =~= out@ + frames(cs.skip(i + 1)));
        }
        i = i + 1;
    }
    proof {
        assert(cs.skip(n as int) =~= Seq::<Seq<u8>>::empty());
        assert(out@ + frames(cs.skip(n as int)) =~= out@);
    }
    push_str_bytes(&mut out, end.as_str());
    proof {
        assert(out@ =~= chunked_reads(encode_utf8(first_line_and_headers@), cs, trailers@));
    }
    out
}

/// A byte body in memory written in the chunked coding: the same as its reads of at
/// most 16384 bytes written one chunk each.
pub proof fn lemma_stream_as_reads(head: Seq<u8>, body: Seq<u8>, trailers: Seq<HeaderView>)
    ensures
        chunked_reads(head, stream_chunks(body), trailers) == chunked_stream(head, body, trailers),
{
    if body.len() > 0 {
        assert(stream_chunks(body).len() > 0);
    } else {
        assert(stream_chunks(body).len() == 0);
    }
}

// ---------------------------------------------------------------- reading back what was written

/// Where the chunk decoder stands at the start of a chunk's size line, having counted
/// `total` body bytes and written `out`.
pub open spec fn at_size_line(total: int, out: Seq<u8>) -> ChunkState {
    ChunkState { mode: ChunkMode::Metadata, size: 0, earlier: 0, current: 0, total, out }
}

/// The chunk lengths are all greater than zero (a zero length ends a chunked body).
pub open spec fn all_nonempty(cs: Seq<Seq<u8>>) -> bool {
    forall|j: int| 0 <= j < cs.len() ==> (#[trigger] cs[j]).len() > 0
}

/// The bytes of `r` from index `i` on begin with `s`.
pub open spec fn holds_at(r: Seq<u8>, i: int, s: Seq<u8>) -> bool {
    &&& 0 <= i
    &&& i + s.len() <= r.len()
    &&& forall|j: int| 0 <= j < s.len() ==> r[i + j] == #[trigger] s[j]
}

proof fn lemma_scan_size_digits(r: Seq<u8>, i: int, d: Seq<char>, k: int, st: ChunkState)
    requires
        all_digits(d),
        d.len() > 0,
        d[0] != '0',
        digits_value(d) <= usize::MAX,
        0 <= k <= d.len(),
        holds_at(r, i, ascii_bytes(d.skip(k))),
        st.mode == ChunkMode::Metadata,
        st.size == digits_value(d.take(k)),
    ensures
        chunk_scan(r, i, st) == chunk_scan(
            r,
            i + d.len() - k,
            ChunkState { size: digits_value(d) as int, ..st },
        ),
    decreases d.len() - k,
{
    if k == d.len() {
        assert(d.take(k) =~= d);
    } else {
        let c = d[k];
        assert(ascii_bytes(d.skip(k))[0] == r[i]);
        assert(d.skip(k)[0] == c);
        assert(is_digit(c));
        let o = r[i];
        assert(o == (c as u32) as u8);
        assert(o as int == c as int);
        assert(d.take(k + 1).drop_last() =~= d.take(k));
        assert(d.take(k + 1).last() == c);
        assert(digits_value(d.take(k + 1)) == st.size * 10 + (o - 48));
        lemma_digits_value_monotone(d, k + 1, d.len() as int);
        lemma_digits_value_monotone(d, 1, k + 1);
        assert(d.take(1).drop_last() =~= Seq::<char>::empty());
        assert(digits_value(Seq::<char>::empty()) == 0);
        assert(d.take(1).last() == d[0]);
        assert(digits_value(d.take(1)) == digit_value(d[0]));
        assert(d.take(d.len() as int) =~= d);
        let st2 = ChunkState { size: digits_value(d.take(k + 1)) as int, ..st };
        assert(holds_at(r, i + 1, ascii_bytes(d.skip(k + 1)))) by {
            assert forall|j: int| 0 <= j < ascii_bytes(d.skip(k + 1)).len() implies r[i + 1 + j]
                == #[trigger] ascii_bytes(d.skip(k + 1))[j] by {
                assert(ascii_bytes(d.skip(k))[j + 1] == r[i + (j + 1)]);
                assert(d.skip(k)[j + 1] == d.skip(k + 1)[j]);
            }
        }
        lemma_scan_size_digits(r, i + 1, d, k + 1, st2);
    }
}

proof fn lemma_scan_data(r: Seq<u8>, i: int, c: Seq<u8>, k: int, st: ChunkState)
    requires
        0 <= k <= c.len(),
        holds_at(r, i, c.skip(k)),
        i + c.len() - k < r.len(),
        st.mode == ChunkMode::Read,
        st.earlier == 0,
        st.size == c.len(),
        st.current == k,
    ensures
        chunk_scan(r, i, st) == chunk_scan(
            r,
            i + c.len() - k,
            ChunkState { current: c.len() as int, out: st.out + c.skip(k), ..st },
        ),
    decreases c.len() - k,
{
    if k == c.len() {
        assert(st.out + c.skip(k) =~= st.out);
    } else {
        assert(c.skip(k)[0] == r[i]);
        assert(c.skip(k)[0] == c[k]);
        let st2 = ChunkState { current: k + 1, out: st.out.push(c[k]), ..st };
        assert(holds_at(r, i + 1, c.skip(k + 1))) by {
            assert forall|j: int| 0 <= j < c.skip(k + 1).len() implies r[i + 1 + j]
                == #[trigger] c.skip(k + 1)[j] by {
                assert(c.skip(k)[j + 1] == r[i + (j + 1)]);
            }
        }
        lemma_scan_data(r, i + 1, c, k + 1, st2);
        assert(st.out.push(c[k]) + c.skip(k + 1) =~= st.out + c.skip(k));
    }
}

/// The decoder reads one chunk as the writer frames it.
proof fn lemma_scan_frame(r: Seq<u8>, i: int, c: Seq<u8>, total: int, out: Seq<u8>)
    requires
        0 < c.len() <= usize::MAX,
        holds_at(r, i, frame(c)),
    ensures
        chunk_scan(r, i, at_size_line(total, out)) == chunk_scan(
            r,
            i + frame(c).len(),
            at_size_line(total + c.len(), out + c),
        ),
{
    let n = c.len();
    let d = decimal(n);
    lemma_decimal_digits(n);
    lemma_decimal_ascii(n);
    let m = d.len() as int;
    let f = frame(c);
    assert(size_digits(n).len() == m);
    assert(f.len() == m + 2 + n + 2);
    assert(holds_at(r, i, ascii_bytes(d.skip(0)))) by {
        assert(d.skip(0) =~= d);
        assert forall|j: int| 0 <= j < ascii_bytes(d).len() implies r[i + j]
            == #[trigger] ascii_bytes(d)[j] by {
            assert(f[j] == ascii_bytes(d)[j]);
        }
    }
    assert(d.take(0) =~= Seq::<char>::empty());
    lemma_scan_size_digits(r, i, d, 0, at_size_line(total, out));
    let s1 = ChunkState { size: n as int, ..at_size_line(total, out) };
    assert(r[i + m] == f[m]);
    assert(r[i + m + 1] == f[m + 1]);
    assert(f[m] == cr());
    assert(f[m + 1] == lf());
    let s2 = ChunkState { mode: ChunkMode::Read, ..s1 };
    assert(chunk_scan(r, i + m, s1) == chunk_scan(r, i + m + 1, s1));
    assert(chunk_scan(r, i + m + 1, s1) == chunk_scan(r, i + m + 2, s2));
    assert(holds_at(r, i + m + 2, c.skip(0))) by {
        assert(c.skip(0) =~= c);
        assert forall|j: int| 0 <= j < c.len() implies r[i + m + 2 + j] == #[trigger] c[j] by {
            assert(f[m + 2 + j] == c[j]);
            assert(r[i + (m + 2 + j)] == f[m + 2 + j]);
        }
    }
    lemma_scan_data(r, i + m + 2, c, 0, s2);
    let s3 = ChunkState { current: n as int, out: out + c.skip(0), ..s2 };
    assert(c.skip(0) =~= c);
    let p = i + m + 2 + n;
    assert(r[p] == f[m + 2 + n]);
    assert(r[p + 1] == f[m + 3 + n]);
    assert(f[m + 2 + n] == cr());
    assert(f[m + 3 + n] == lf());
    assert(chunk_scan(r, p, s3) == chunk_scan(r, p + 1, s3));
    assert(chunk_scan(r, p + 1, s3) == chunk_scan(r, p + 2, at_size_line(total + n, out + c)));
}

/// The decoder reads a run of chunks as the writer frames them.
proof fn lemma_scan_frames(r: Seq<u8>, i: int, cs: Seq<Seq<u8>>, total: int, out: Seq<u8>)
    requires
        all_nonempty(cs),
        forall|j: int| 0 <= j < cs.len() ==> (#[trigger] cs[j]).len() <= usize::MAX,
        holds_at(r, i, frames(cs)),
    ensures
        chunk_scan(r, i, at_size_line(total, out)) == chunk_scan(
            r,
            i + frames(cs).len(),
            at_size_line(total + concat_all(cs).len(), out + concat_all(cs)),
        ),
    decreases cs.len(),
{
    if cs.len() == 0 {
        assert(out + concat_all(cs) =~= out);
    } else {
        let c = cs[0];
        let rest = cs.drop_first();
        let f = frame(c);
        assert(frames(cs) == f + frames(rest));
        assert(cs[0].len() > 0);
        assert(holds_at(r, i, f)) by {
            assert forall|j: int| 0 <= j < f.len() implies r[i + j] == #[trigger] f[j] by {
                assert(frames(cs)[j] == f[j]);
            }
        }
        lemma_scan_frame(r, i, c, total, out);
        assert(holds_at(r, i + f.len(), frames(rest))) by {
            assert forall|j: int| 0 <= j < frames(rest).len() implies r[i + f.len() + j]
                == #[trigger] frames(rest)[j] by {
                assert(frames(cs)[f.len() + j] == frames(rest)[j]);
                assert(r[i + (f.len() + j)] == frames(cs)[f.len() + j]);
            }
        }
        assert forall|j: int| 0 <= j < rest.len() implies (#[trigger] rest[j]).len() > 0 by {
            assert(rest[j] == cs[j + 1]);
        }
        assert forall|j: int| 0 <= j < rest.len() implies (#[trigger] rest[j]).len() <= usize::MAX by {
            assert(rest[j] == cs[j + 1]);
        }
        lemma_scan_frames(r, i + f.len(), rest, total + c.len(), out + c);
        assert(concat_all(cs) == c + concat_all(rest));
        assert(out + c + concat_all(rest) =~= out + concat_all(cs));
    }
}

/// A zero size line ends the body.
proof fn lemma_scan_end(r: Seq<u8>, i: int, total: int, out: Seq<u8>)
    requires
        0 <= i < r.len(),
        r[i] == 48,
    ensures
        chunk_scan(r, i, at_size_line(total, out)) == (Chunks::Stopped {
            finished: true,
            st: at_size_line(total, out),
            trailers_at: i + 3,
        }),
{
}


/// What follows the head when a byte body is sent in the chunked coding.
pub open spec fn chunked_body_bytes(body: Seq<u8>, trailers: Seq<HeaderView>) -> Seq<u8> {
    frames(stream_chunks(body)) + encode_utf8(chunked_end(trailers))
}

/// What the chunk decoder gives for a body that ends where `end_at` says, having read
/// `body` into what `w` held.
pub open spec fn decoded(w: Seq<u8>, body: Seq<u8>, end_at: int) -> Chunks {
    Chunks::Stopped { finished: true, st: at_size_line(body.len() as int, w + body), trailers_at: end_at + 3 }
}

proof fn lemma_stream_chunks(body: Seq<u8>)
    ensures
        concat_all(stream_chunks(body)) == body,
        all_nonempty(stream_chunks(body)),
        forall|j: int| 0 <= j < stream_chunks(body).len() ==> (#[trigger] stream_chunks(body)[j]).len() <= stream_chunk_size(),
    decreases body.len(),
{
    let cs = stream_chunks(body);
    if body.len() == 0 {
    } else if body.len() <= stream_chunk_size() {
        assert(cs.drop_first() =~= Seq::<Seq<u8>>::empty());
        assert(concat_all(cs) == body + concat_all(cs.drop_first()));
        assert(body + Seq::<u8>::empty() =~= body);
    } else {
        let k = stream_chunk_size() as int;
        let rest = body.skip(k);
        lemma_stream_chunks(rest);
        assert(cs.drop_first() =~= stream_chunks(rest));
        assert(concat_all(cs) == body.take(k) + concat_all(stream_chunks(rest)));
        assert(body.take(k) + rest =~= body);
        assert forall|j: int| 0 <= j < cs.len() implies (#[trigger] cs[j]).len() > 0
            && cs[j].len() <= stream_chunk_size() by {
            if j > 0 {
                assert(cs[j] == stream_chunks(rest)[j - 1]);
            }
        }
    }
}

proof fn lemma_end_starts_with_zero(trailers: Seq<HeaderView>)
    ensures
        encode_utf8(chunked_end(trailers)).len() > 0,
        encode_utf8(chunked_end(trailers))[0] == 48,
{
    let e = chunked_end(trailers);
    assert(e =~= seq!['0'] + e.drop_first());
    lemma_encode_concat(seq!['0'], e.drop_first());
    assert(seq!['0'].drop_first() =~= Seq::<char>::empty());
    assert(is_ascii_seq(seq!['0']));
    lemma_ascii_encode(seq!['0']);
    assert(ascii_bytes(seq!['0'])[0] == 48);
}

proof fn lemma_holds_at_front(a: Seq<u8>, b: Seq<u8>)
    ensures
        holds_at(a + b, 0, a),
{
    assert forall|j: int| 0 <= j < a.len() implies (a + b)[0 + j] == #[trigger] a[j] by {}
}

/// Decoding what the writer sends after the head of a chunked message gives back the
/// body, finished, with the trailers starting right after the zero size line.
pub proof fn law_chunked_stream_reads_back(head: Seq<u8>, body: Seq<u8>, trailers: Seq<HeaderView>, w: Seq<u8>)
    requires
        body.len() > 0,
    ensures
        chunked_stream(head, body, trailers) == head + chunked_body_bytes(body, trailers),
        chunk_scan(chunked_body_bytes(body, trailers), 0, chunk_start(ChunkMode::Metadata, 0, 0, w))
            == decoded(w, body, frames(stream_chunks(body)).len() as int),
{
    let cs = stream_chunks(body);
    let r = chunked_body_bytes(body, trailers);
    lemma_stream_chunks(body);
    lemma_holds_at_front(frames(cs), encode_utf8(chunked_end(trailers)));
    lemma_scan_frames(r, 0, cs, 0, w);
    lemma_end_starts_with_zero(trailers);
    let n = frames(cs).len() as int;
    assert(r[n] == encode_utf8(chunked_end(trailers))[0]);
    lemma_scan_end(r, n, body.len() as int, w + body);
    assert(chunk_start(ChunkMode::Metadata, 0, 0, w) == at_size_line(0, w));
    assert(head + frames(cs) + encode_utf8(chunked_end(trailers)) =~= head + r);
}

/// Decoding what the writer sends after the head for a body read in pieces gives back
/// all the pieces, in order, finished, with the trailers starting right after the zero
/// size line.
pub proof fn law_chunked_reads_read_back(
    head: Seq<u8>,
    reads: Seq<Seq<u8>>,
    trailers: Seq<HeaderView>,
    w: Seq<u8>,
)
    requires
        reads.len() > 0,
        all_nonempty(reads),
        forall|j: int| 0 <= j < reads.len() ==> (#[trigger] reads[j]).len() <= usize::MAX,
    ensures
        chunked_reads(head, reads, trailers) == head + frames(reads) + encode_utf8(
            chunked_end(trailers),
        ),
        chunk_scan(
            frames(reads) + encode_utf8(chunked_end(trailers)),
            0,
            chunk_start(ChunkMode::Metadata, 0, 0, w),
        ) == decoded(w, concat_all(reads), frames(reads).len() as int),
{
    let r = frames(reads) + encode_utf8(chunked_end(trailers));
    lemma_holds_at_front(frames(reads), encode_utf8(chunked_end(trailers)));
    lemma_scan_frames(r, 0, reads, 0, w);
    lemma_end_starts_with_zero(trailers);
    let n = frames(reads).len() as int;
    assert(r[n] == encode_utf8(chunked_end(trailers))[0]);
    lemma_scan_end(r, n, concat_all(reads).len() as int, w + concat_all(reads));
    assert(chunk_start(ChunkMode::Metadata, 0, 0, w) == at_size_line(0, w));
}

/// Decoding what the writer sends for a string body after the head gives back the
/// string's bytes, finished; the trailers start right after the zero size line, which
/// comes after the one chunk (or first, for an empty string).
pub proof fn law_chunked_string_reads_back(text: Seq<char>, trailers: Seq<HeaderView>, w: Seq<u8>)
    requires
        encode_utf8(text).len() <= usize::MAX,
    ensures
        ({
            let body = encode_utf8(text);
            let r = encode_utf8(chunked_tail(text, body.len(), trailers));
            &&& text.len() > 0 ==> chunk_scan(r, 0, chunk_start(ChunkMode::Metadata, 0, 0, w))
                == decoded(w, body, frame(body).len() as int)
            &&& text.len() == 0 ==> chunk_scan(r, 0, chunk_start(ChunkMode::Metadata, 0, 0, w))
                == decoded(w, body, 0)
        }),
{
    let body = encode_utf8(text);
    let n = body.len();
    let d = decimal(n);
    let e = chunked_end(trailers);
    lemma_decimal_ascii(n);
    lemma_ascii_encode(d);
    lemma_ascii_encode(crlf());
    let t = chunked_tail(text, n, trailers);
    assert(t =~= d + (crlf() + (text + (crlf() + e))));
    lemma_encode_concat(d, crlf() + (text + (crlf() + e)));
    lemma_encode_concat(crlf(), text + (crlf() + e));
    lemma_encode_concat(text, crlf() + e);
    lemma_encode_concat(crlf(), e);
    assert(ascii_bytes(crlf()) =~= crlf_bytes());
    let r = encode_utf8(t);
    assert(r =~= frame(body) + encode_utf8(e));
    lemma_end_starts_with_zero(trailers);
    assert(chunk_start(ChunkMode::Metadata, 0, 0, w) == at_size_line(0, w));
    if text.len() > 0 {
        assert(encode_utf8(text).len() > 0) by {
            assert(text =~= seq![text[0]] + text.drop_first());
            lemma_encode_concat(seq![text[0]], text.drop_first());
        }
        lemma_holds_at_front(frame(body), encode_utf8(e));
        lemma_scan_frame(r, 0, body, 0, w);
        let m = frame(body).len() as int;
        assert(r[m] == encode_utf8(e)[0]);
        lemma_scan_end(r, m, n as int, w + body);
    } else {
        assert(body =~= Seq::<u8>::empty());
        assert(w + body =~= w);
        lemma_decimal_digits(0);
        assert(d =~= seq!['0']);
        assert(r[0] == ascii_bytes(d)[0]);
        lemma_scan_end(r, 0, 0, w);
    }
}

// ---------------------------------------------------------------- facts about bytes

pub proof fn lemma_encode_concat(a: Seq<char>, b: Seq<char>)
    ensures
        encode_utf8(a + b) == encode_utf8(a) + encode_utf8(b),
    decreases a.len(),
{
    if a.len() == 0 {
        assert(a + b =~= b);
        assert(encode_utf8(a) =~= Seq::<u8>::empty());
    } else {
        lemma_encode_concat(a.drop_first(), b);
        assert((a + b).drop_first() =~= a.drop_first() + b);
        assert((a + b)[0] == a[0]);
    }
}

pub open spec fn is_ascii_seq(s: Seq<char>) -> bool {
    forall|i: int| 0 <= i < s.len() ==> (#[trigger] s[i] as u32) < 128
}

pub proof fn lemma_ascii_encode(s: Seq<char>)
    requires
        is_ascii_seq(s),
    ensures
        encode_utf8(s) == ascii_bytes(s),
    decreases s.len(),
{
    if s.len() > 0 {
        let t = s.drop_first();
        assert forall|i: int| 0 <= i < t.len() implies (#[trigger] t[i] as u32) < 128 by {
            assert(t[i] == s[i + 1]);
            assert((s[i + 1] as u32) < 128);
        }
        lemma_ascii_encode(t);
        let v = s[0] as u32;
        assert(v < 128);
        assert((v & 0x7f) as u8 == v as u8) by (bit_vector)
            requires
                v < 128,
        ;
        assert(encode_scalar(v) =~= seq![v as u8]);
        assert(ascii_bytes(s) =~= seq![v as u8] + ascii_bytes(t));
    } else {
        assert(encode_utf8(s) =~= ascii_bytes(s));
    }
}

pub proof fn lemma_decimal_ascii(n: nat)
    ensures
        is_ascii_seq(decimal(n)),
        all_digits(decimal(n)),
{
    lemma_decimal_digits(n);
    let d = decimal(n);
    assert forall|i: int| 0 <= i < d.len() implies (#[trigger] d[i] as u32) < 128 by {
        assert(is_digit(d[i]));
    }
}

} // verus!

//! The line counter: counts newline bytes, either in a byte slice handed in
//! directly or in a file read through bounded-size chunks.

use std::io::Read;
use vstd::prelude::*;
use crate::aggregate::saturated;

verus! {

/// The number of occurrences of the byte `b` in `s`.
pub open spec fn count_byte(s: Seq<u8>, b: u8) -> int
    decreases s.len(),
{
    if s.len() == 0 {
        0
    } else {
        count_byte(s.drop_last(), b) + if s.last() == b {
            1int
        } else {
            0int
        }
    }
}

/// The line count of a byte sequence: the number of newline (0x0A) bytes in
/// it. Trailing bytes without a final newline add nothing.
pub open spec fn line_count(s: Seq<u8>) -> int {
    count_byte(s, 0x0a)
}

pub proof fn lemma_count_byte_bounds(s: Seq<u8>, b: u8)
    ensures
        0 <= count_byte(s, b) <= s.len(),
    decreases s.len(),
{
    if s.len() > 0 {
        lemma_count_byte_bounds(s.drop_last(), b);
    }
}

/// Occurrence counts add up over concatenation.
proof fn lemma_count_byte_concat(s: Seq<u8>, t: Seq<u8>, b: u8)
    ensures
        count_byte(s + t, b) == count_byte(s, b) + count_byte(t, b),
    decreases t.len(),
{
    if t.len() == 0 {
        assert(s + t =~= s);
    } else {
        assert((s + t).drop_last() =~= s + t.drop_last());
        assert((s + t).last() == t.last());
        lemma_count_byte_concat(s, t.drop_last(), b);
    }
}

proof fn lemma_count_byte_take_step(s: Seq<u8>, b: u8, i: int)
    requires
        0 <= i < s.len(),
    ensures
        count_byte(s.take(i + 1), b) == count_byte(s.take(i), b) + if s[i] == b {
            1int
        } else {
            0int
        },
{
    assert(s.take(i + 1).drop_last() =~= s.take(i));
}

/// Counts the newline bytes among the first `n` bytes of `data`.
pub fn count_newlines_prefix(data: &[u8], n: usize) -> (c: usize)
    requires
        n <= data@.len(),
    ensures
        c as int == line_count(data@.take(n as int)),
        c <= n,
{
    let mut c: usize = 0;
    let mut i: usize = 0;
    while i < n
        invariant
            i <= n <= data@.len(),
            c as int == line_count(data@.take(i as int)),
            c <= i,
        decreases n - i,
    {
        proof {
            lemma_count_byte_take_step(data@, 0x0a, i as int);
        }
        if data[i] == 0x0a {
            c = c + 1;
        }
        i = i + 1;
    }
    c
}

/// Counts the newline bytes in `data`: the number of lines it holds.
pub fn count_newlines(data: &[u8]) -> (c: usize)
    ensures
        c as int == line_count(data@),
{
    let n = data.len();
    let c = count_newlines_prefix(data, n);
    proof {
        assert(data@.take(data@.len() as int) =~= data@);
    }
    c
}

/// Adds one chunk's newline count to a running total, clamped to what 64
/// bits can hold: one step of the chunked file scan.
pub fn accumulate_chunk(count: u64, chunk: &[u8], n: usize) -> (r: u64)
    requires
        n <= chunk@.len(),
    ensures
        r as int == saturated(count + line_count(chunk@.take(n as int))),
{
    let c = count_newlines_prefix(chunk, n);
    count.saturating_add(c as u64)
}

/// The error reported when a file cannot be opened or read; the run goes on
/// without the file.
#[derive(Debug)]
pub struct CountError {
    pub message: String,
}

#[verifier::external_type_specification]
#[verifier::external_body]
pub struct ExFile(fs_err::File);

#[verifier::external_type_specification]
#[verifier::external_body]
pub struct ExIoError(std::io::Error);

/// Relies on fs_err::File::open: opens the file at `path` for reading, or
/// returns the I/O error.
#[verifier::external_body]
fn open_file(path: &String) -> Result<fs_err::File, std::io::Error> {
    fs_err::File::open(path.as_str())
}

/// Relies on std::io::Read::read (through fs_err::File): fills a prefix of
/// `buf` with the next bytes of the file and returns how many were read,
/// never more than the buffer holds; 0 means end of file (or an empty
/// buffer). The buffer's length does not change.
#[verifier::external_body]
fn read_chunk(file: &mut fs_err::File, buf: &mut Vec<u8>) -> (r: Result<
    usize,
    std::io::Error,
>)
    ensures
        r matches Ok(n) ==> n <= final(buf)@.len() && final(buf)@.len() == old(buf)@.len(),
{
    file.read(buf.as_mut_slice())
}

/// Relies on std::io::Error's ToString::to_string: renders the error as a
/// message for the warning channel.
#[verifier::external_body]
fn io_error_message(err: &std::io::Error) -> String {
    err.to_string()
}

/// Counts the newline bytes in the file at `path`, scanning it in
/// bounded-size chunks rather than loading it whole. Which bytes come back
/// only the file system decides, so alongside the result stands a ghost
/// transcript of the bytes that were read, and the count is pinned to it: a
/// successful count is exactly the clamped newline count of the transcript.
/// A file that cannot be opened or read yields the I/O error's message
/// instead, and a count that would not fit in 64 bits stops at the maximum.
pub fn count_lines(path: &String) -> (r: (Result<u64, CountError>, Ghost<Seq<u8>>))
    ensures
        r.0 matches Ok(n) ==> n as int == saturated(line_count(r.1@)),
{
    let ghost mut seen: Seq<u8> = Seq::empty();
    let mut file = match open_file(path) {
        Ok(f) => f,
        Err(e) => {
            return (Err(CountError { message: io_error_message(&e) }), Ghost(seen));
        },
    };
    let mut buf: Vec<u8> = Vec::new();
    buf.resize(65536, 0u8);
    let mut count: u64 = 0;
    // A regular file holds at most u64::MAX bytes, and every read before the
    // end of the file hands back at least one of them, so this bound is never
    // reached; it makes the scan provably finite.
    let mut reads_left: u64 = u64::MAX;
    while reads_left > 0
        invariant
            buf@.len() == 65536,
            count as int == saturated(line_count(seen)),
        decreases reads_left,
    {
        reads_left = reads_left - 1;
        let n = match read_chunk(&mut file, &mut buf) {
            Ok(n) => n,
            Err(e) => {
                return (Err(CountError { message: io_error_message(&e) }), Ghost(seen));
            },
        };
        if n == 0 {
            return (Ok(count), Ghost(seen));
        }
        count = accumulate_chunk(count, buf.as_slice(), n);
        proof {
            lemma_count_byte_concat(seen, buf@.take(n as int), 0x0a);
            lemma_count_byte_bounds(buf@.take(n as int), 0x0a);
            lemma_count_byte_bounds(seen, 0x0a);
            seen = seen + buf@.take(n as int);
        }
    }
    (Ok(count), Ghost(seen))
}

} // verus!

//! Decisions of the byte-moving loops: when a head is complete, how much of a
//! body is left, when a chunked stream ends.

use crate::text::{
    bytes_occur, crlf, crlf_at, lemma_line_end, lemma_line_end_bound, line_end, occurs, occurs_at,
    push_bytes,
};
use vstd::prelude::*;

verus! {

/// The most bytes that are read in search of the end of a head: 64 KiB.
pub const MAX_HEADER_SIZE: usize = 65536;

/// CR LF CR LF, the end of a head.
pub open spec fn head_end() -> Seq<u8> {
    seq![13u8, 10u8, 13u8, 10u8]
}

/// What to do after bytes were read in search of the end of a head.
#[derive(Debug, Clone, Copy, PartialEq, Eq, Structural)]
pub enum ReadStep {
    /// Read on.
    NeedMore,
    /// The end of the head is among the bytes read so far.
    Complete,
    /// The sender closed the connection before it sent anything.
    CleanEof,
    /// The sender closed the connection within the head.
    Truncated,
    /// There is no end of a head within the allowed size.
    TooLarge,
}

/// Collects the bytes of a head (and what of the body came with it).
#[derive(Debug)]
pub struct HeadReader {
    pub buf: Vec<u8>,
}

/// What follows when `chunk` was read after `buf`; an empty chunk is the end of
/// the stream.
pub open spec fn read_step(buf: Seq<u8>, chunk: Seq<u8>) -> ReadStep {
    if chunk.len() == 0 {
        if buf.len() == 0 {
            ReadStep::CleanEof
        } else {
            ReadStep::Truncated
        }
    } else if occurs(buf + chunk, head_end()) {
        ReadStep::Complete
    } else if (buf + chunk).len() > MAX_HEADER_SIZE {
        ReadStep::TooLarge
    } else {
        ReadStep::NeedMore
    }
}

impl HeadReader {
    pub fn new() -> (r: Self)
        ensures
            r.buf@ == Seq::<u8>::empty(),
    {
        HeadReader { buf: Vec::new() }
    }

    /// Takes in the next bytes read; none at all means that the sender closed.
    pub fn feed(&mut self, chunk: &[u8]) -> (r: ReadStep)
        ensures
            final(self).buf@ == old(self).buf@ + chunk@,
            r == read_step(old(self).buf@, chunk@),
    {
        if chunk.len() == 0 {
            assert(self.buf@ + chunk@ == self.buf@);
            if self.buf.len() == 0 {
                return ReadStep::CleanEof;
            }
            return ReadStep::Truncated;
        }
        push_bytes(&mut self.buf, chunk);
        let end: [u8; 4] = [13, 10, 13, 10];
        assert(end@ == head_end());
        if bytes_occur(self.buf.as_slice(), &end) {
            ReadStep::Complete
        } else if self.buf.len() > MAX_HEADER_SIZE {
            ReadStep::TooLarge
        } else {
            ReadStep::NeedMore
        }
    }
}

/// What to do next when an exact number of bytes is copied.
#[derive(Debug, Clone, Copy, PartialEq, Eq, Structural)]
pub enum CopyStep {
    /// Read at most this many bytes, which is never none.
    Read(usize),
    /// Everything was copied.
    Done,
}

/// Progress of copying an exact number of bytes.
#[derive(Debug)]
pub struct ExactCopy {
    pub remaining: u64,
}

impl ExactCopy {
    pub fn new(bytes: u64) -> (r: Self)
        ensures
            r.remaining == bytes,
    {
        ExactCopy { remaining: bytes }
    }

    /// The next step with a buffer of `capacity` bytes: never read past the end.
    pub fn next(&self, capacity: usize) -> (r: CopyStep)
        requires
            capacity > 0,
        ensures
            r == (if self.remaining == 0 {
                CopyStep::Done
            } else if self.remaining < capacity as u64 {
                CopyStep::Read(self.remaining as usize)
            } else {
                CopyStep::Read(capacity)
            }),
    {
        if self.remaining == 0 {
            CopyStep::Done
        } else if self.remaining < capacity as u64 {
            CopyStep::Read(self.remaining as usize)
        } else {
            CopyStep::Read(capacity)
        }
    }

    /// Accounts for `n` bytes read and copied. Returns whether copying can go on:
    /// no bytes at all while some are missing means that the sender closed early.
    pub fn copied(&mut self, n: usize) -> (r: bool)
        requires
            n as u64 <= old(self).remaining,
        ensures
            final(self).remaining == old(self).remaining - n,
            r == (n > 0),
    {
        self.remaining = self.remaining - n as u64;
        n > 0
    }
}

pub open spec fn is_hex(b: u8) -> bool {
    48 <= b <= 57 || 65 <= b <= 70 || 97 <= b <= 102
}

/// The value of a hexadecimal digit.
pub open spec fn hex_of(b: u8) -> nat {
    if b <= 57 {
        (b - 48) as nat
    } else if b <= 70 {
        (b - 55) as nat
    } else {
        (b - 87) as nat
    }
}

/// The number that a sequence of hexadecimal digits denotes.
pub open spec fn hex_value(s: Seq<u8>) -> nat
    decreases s.len(),
{
    if s.len() == 0 {
        0
    } else {
        hex_value(s.drop_last()) * 16 + hex_of(s.last())
    }
}

/// How many hexadecimal digits `s` starts with.
pub open spec fn hex_len(s: Seq<u8>) -> int
    decreases s.len(),
{
    if s.len() == 0 || !is_hex(s[0]) {
        0
    } else {
        1 + hex_len(s.drop_first())
    }
}

/// Whether `b` may follow the size of a chunk: a semicolon, before an extension,
/// or white space.
pub open spec fn ends_size(b: u8) -> bool {
    b == 59 || b == 32 || b == 9
}

/// The size that the first line of a chunk announces: at least one hexadecimal
/// digit, and perhaps extensions behind it.
pub open spec fn chunk_size(line: Seq<u8>) -> Option<u64> {
    let n = hex_len(line);
    if n > 0 && (n < line.len() ==> ends_size(line[n])) && hex_value(line.take(n)) <= u64::MAX {
        Some(hex_value(line.take(n)) as u64)
    } else {
        None
    }
}

pub open spec fn shifted(end: Option<int>, by: int) -> Option<int> {
    match end {
        Some(i) => Some(i + by),
        None => None,
    }
}

/// Where the trailer fields that start `s` end: behind the first empty line.
pub open spec fn trailer_end(s: Seq<u8>) -> Option<int>
    decreases s.len(),
{
    let e = line_end(s);
    if !(0 <= e < s.len()) {
        None
    } else if e == 0 {
        Some(2)
    } else {
        proof {
            lemma_line_end_bound(s);
        }
        shifted(trailer_end(s.skip(e + 2)), e + 2)
    }
}

/// Where the chunked body that starts `s` ends, if it ends within `s`: each chunk
/// is a line with its size, that many bytes and a CRLF; behind the chunk of size
/// zero come trailer fields and an empty line.
pub open spec fn chunked_end(s: Seq<u8>) -> Option<int>
    decreases s.len(),
{
    let e = line_end(s);
    if !(0 <= e < s.len()) {
        None
    } else {
        match chunk_size(s.take(e)) {
            None => None,
            Some(size) => if size == 0 {
                shifted(trailer_end(s.skip(e + 2)), e + 2)
            } else {
                let next = e + 2 + size + 2;
                if next <= s.len() && crlf_at(s, next - 2) {
                    shifted(chunked_end(s.skip(next)), next)
                } else {
                    None
                }
            },
        }
    }
}

/// What was read of the line with the size of a chunk.
#[derive(Clone, Copy, PartialEq, Eq, Structural)]
enum SizeScan {
    /// Digits only, and whether there was any.
    Digits { size: u64, any: bool },
    /// The size is complete.
    Complete { size: u64 },
    /// This is no size.
    Bad,
}

/// Where in a chunked body a scan stands. In a line, `cr` tells whether the last
/// byte was a carriage return.
#[derive(Clone, Copy, PartialEq, Eq, Structural)]
enum ChunkScan {
    /// In the line with the size of a chunk.
    Size { size: SizeScan, cr: bool },
    /// In a chunk, with this many bytes left before its CRLF.
    Data { left: u64 },
    /// Between the CR and the LF behind a chunk.
    DataEnd,
    /// In a line of the trailer, which is empty so far or not.
    Trailer { empty: bool, cr: bool },
    Done,
    /// The body is not well-formed.
    Bad,
}

spec fn size_after(size: SizeScan, b: u8) -> SizeScan {
    match size {
        SizeScan::Digits { size, any } => if is_hex(b) {
            if size * 16 + hex_of(b) <= u64::MAX {
                SizeScan::Digits { size: (size * 16 + hex_of(b)) as u64, any: true }
            } else {
                SizeScan::Bad
            }
        } else if any && ends_size(b) {
            SizeScan::Complete { size }
        } else {
            SizeScan::Bad
        },
        _ => size,
    }
}

spec fn size_of_scan(size: SizeScan) -> Option<u64> {
    match size {
        SizeScan::Digits { size, any } => if any {
            Some(size)
        } else {
            None
        },
        SizeScan::Complete { size } => Some(size),
        SizeScan::Bad => None,
    }
}

/// What is known of the part `c` of a line after it was scanned.
spec fn size_reads(size: SizeScan, c: Seq<u8>) -> bool {
    let n = hex_len(c);
    match size {
        SizeScan::Digits { size, any } => {
            &&& n == c.len()
            &&& hex_value(c) == size
            &&& any == (n > 0)
        },
        SizeScan::Complete { size } => {
            &&& 0 < n < c.len()
            &&& ends_size(c[n])
            &&& hex_value(c.take(n)) == size
        },
        SizeScan::Bad => (n < c.len() && (n == 0 || !ends_size(c[n]))) || hex_value(c.take(n))
            > u64::MAX,
    }
}

proof fn lemma_hex_len_bound(c: Seq<u8>)
    ensures
        0 <= hex_len(c) <= c.len(),
    decreases c.len(),
{
    if c.len() > 0 && is_hex(c[0]) {
        lemma_hex_len_bound(c.drop_first());
    }
}

proof fn lemma_hex_len_push(c: Seq<u8>, b: u8)
    ensures
        hex_len(c.push(b)) == (if hex_len(c) == c.len() && is_hex(b) {
            c.len() as int + 1
        } else {
            hex_len(c)
        }),
    decreases c.len(),
{
    if c.len() > 0 {
        assert(c.push(b).drop_first() == c.drop_first().push(b));
        lemma_hex_len_push(c.drop_first(), b);
    } else {
        assert(c.push(b).drop_first() == c);
    }
}

proof fn lemma_size_after(size: SizeScan, c: Seq<u8>, b: u8)
    requires
        size_reads(size, c),
    ensures
        size_reads(size_after(size, b), c.push(b)),
{
    let d = c.push(b);
    let n = hex_len(c);
    let m = hex_len(d);
    lemma_hex_len_bound(c);
    lemma_hex_len_push(c, b);
    assert(c.take(c.len() as int) == c);
    assert(d.take(d.len() as int) == d);
    assert(d.drop_last() == c);
    if n == c.len() && is_hex(b) {
        assert(hex_value(d) == hex_value(c) * 16 + hex_of(b));
    } else {
        assert(d.take(n) == c.take(n));
    }
}

proof fn lemma_size_of_scan(size: SizeScan, c: Seq<u8>)
    requires
        size_reads(size, c),
    ensures
        chunk_size(c) == size_of_scan(size),
{
    lemma_hex_len_bound(c);
    assert(c.take(c.len() as int) == c);
}

spec fn first_size() -> ChunkScan {
    ChunkScan::Size { size: SizeScan::Digits { size: 0, any: false }, cr: false }
}

/// A scan after one more byte.
spec fn scan_after(scan: ChunkScan, b: u8) -> ChunkScan {
    match scan {
        ChunkScan::Size { size, cr } => if cr && b == 10 {
            match size_of_scan(size) {
                None => ChunkScan::Bad,
                Some(n) => if n == 0 {
                    ChunkScan::Trailer { empty: true, cr: false }
                } else {
                    ChunkScan::Data { left: n }
                },
            }
        } else {
            let absorbed = if cr {
                size_after(size, 13)
            } else {
                size
            };
            if b == 13 {
                ChunkScan::Size { size: absorbed, cr: true }
            } else {
                ChunkScan::Size { size: size_after(absorbed, b), cr: false }
            }
        },
        ChunkScan::Data { left } => if left > 0 {
            ChunkScan::Data { left: (left - 1) as u64 }
        } else if b == 13 {
            ChunkScan::DataEnd
        } else {
            ChunkScan::Bad
        },
        ChunkScan::DataEnd => if b == 10 {
            first_size()
        } else {
            ChunkScan::Bad
        },
        ChunkScan::Trailer { empty, cr } => if cr && b == 10 {
            if empty {
                ChunkScan::Done
            } else {
                ChunkScan::Trailer { empty: true, cr: false }
            }
        } else if b == 13 {
            ChunkScan::Trailer { empty: empty && !cr, cr: true }
        } else {
            ChunkScan::Trailer { empty: false, cr: false }
        },
        _ => scan,
    }
}

fn is_hex_digit(b: u8) -> (r: bool)
    ensures
        r == is_hex(b),
{
    (48 <= b && b <= 57) || (65 <= b && b <= 70) || (97 <= b && b <= 102)
}

fn hex_digit_of(b: u8) -> (r: u8)
    requires
        is_hex(b),
    ensures
        r == hex_of(b),
        r < 16,
{
    if b <= 57 {
        b - 48
    } else if b <= 70 {
        b - 55
    } else {
        b - 87
    }
}

fn absorb_size(size: SizeScan, b: u8) -> (r: SizeScan)
    ensures
        r == size_after(size, b),
{
    match size {
        SizeScan::Digits { size: value, any } => {
            if is_hex_digit(b) {
                let wide: u128 = value as u128 * 16 + hex_digit_of(b) as u128;
                if wide <= 0xffff_ffff_ffff_ffff {
                    SizeScan::Digits { size: wide as u64, any: true }
                } else {
                    SizeScan::Bad
                }
            } else if any && (b == 59 || b == 32 || b == 9) {
                SizeScan::Complete { size: value }
            } else {
                SizeScan::Bad
            }
        },
        _ => size,
    }
}

fn scan_byte(scan: ChunkScan, b: u8) -> (r: ChunkScan)
    ensures
        r == scan_after(scan, b),
{
    match scan {
        ChunkScan::Size { size, cr } => {
            if cr && b == 10 {
                let announced: u64 = match size {
                    SizeScan::Digits { size: value, any } => {
                        if !any {
                            return ChunkScan::Bad;
                        }
                        value
                    },
                    SizeScan::Complete { size: value } => value,
                    SizeScan::Bad => return ChunkScan::Bad,
                };
                if announced == 0 {
                    ChunkScan::Trailer { empty: true, cr: false }
                } else {
                    ChunkScan::Data { left: announced }
                }
            } else {
                let absorbed = if cr {
                    absorb_size(size, 13)
                } else {
                    size
                };
                if b == 13 {
                    ChunkScan::Size { size: absorbed, cr: true }
                } else {
                    ChunkScan::Size { size: absorb_size(absorbed, b), cr: false }
                }
            }
        },
        ChunkScan::Data { left } => {
            if left > 0 {
                ChunkScan::Data { left: left - 1 }
            } else if b == 13 {
                ChunkScan::DataEnd
            } else {
                ChunkScan::Bad
            }
        },
        ChunkScan::DataEnd => {
            if b == 10 {
                ChunkScan::Size { size: SizeScan::Digits { size: 0, any: false }, cr: false }
            } else {
                ChunkScan::Bad
            }
        },
        ChunkScan::Trailer { empty, cr } => {
            if cr && b == 10 {
                if empty {
                    ChunkScan::Done
                } else {
                    ChunkScan::Trailer { empty: true, cr: false }
                }
            } else if b == 13 {
                ChunkScan::Trailer { empty: empty && !cr, cr: true }
            } else {
                ChunkScan::Trailer { empty: false, cr: false }
            }
        },
        _ => scan,
    }
}

/// Whether a scan that goes on with `s`, from the start of the current line, comes
/// to the end of the body.
spec fn finishes(scan: ChunkScan, s: Seq<u8>) -> bool {
    match scan {
        ChunkScan::Size { .. } => chunked_end(s) is Some,
        ChunkScan::Data { left } => crlf_at(s, left as int) && chunked_end(
            s.skip(left + 2),
        ) is Some,
        ChunkScan::DataEnd => s.len() > 0 && s[0] == 10 && chunked_end(s.skip(1)) is Some,
        ChunkScan::Trailer { .. } => trailer_end(s) is Some,
        ChunkScan::Done => true,
        ChunkScan::Bad => false,
    }
}

/// The current line without a carriage return at its end.
spec fn line_content(line: Seq<u8>) -> Seq<u8> {
    if line.len() > 0 && line.last() == 13 {
        line.drop_last()
    } else {
        line
    }
}

/// What a scan knows of the current line.
spec fn knows_line(scan: ChunkScan, line: Seq<u8>) -> bool {
    match scan {
        ChunkScan::Size { size, cr } => {
            &&& forall|i: int| !crlf_at(line, i)
            &&& cr == (line.len() > 0 && line.last() == 13)
            &&& size_reads(size, line_content(line))
        },
        ChunkScan::Trailer { empty, cr } => {
            &&& forall|i: int| !crlf_at(line, i)
            &&& cr == (line.len() > 0 && line.last() == 13)
            &&& empty == (line_content(line).len() == 0)
        },
        _ => line.len() == 0,
    }
}

/// A scan stands for all that was seen of a body: whatever comes, it leads to an
/// end if the body does.
spec fn stands_for(scan: ChunkScan, line: Seq<u8>, seen: Seq<u8>) -> bool {
    forall|t: Seq<u8>|
        (#[trigger] chunked_end(seen + t) is Some) == finishes(scan, line + t)
}

/// The current line after one more byte.
spec fn line_after(scan: ChunkScan, line: Seq<u8>, b: u8) -> Seq<u8> {
    match scan {
        ChunkScan::Size { cr, .. } | ChunkScan::Trailer { cr, .. } => if cr && b == 10 {
            Seq::empty()
        } else {
            line.push(b)
        },
        _ => Seq::empty(),
    }
}

proof fn lemma_no_crlf_push(line: Seq<u8>, b: u8)
    requires
        forall|i: int| !crlf_at(line, i),
        !(b == 10 && line.len() > 0 && line.last() == 13),
    ensures
        forall|i: int| !crlf_at(line.push(b), i),
{
    assert forall|i: int| !crlf_at(line.push(b), i) by {
        if crlf_at(line.push(b), i) {
            if i + 1 < line.len() {
                assert(crlf_at(line, i));
            }
        }
    }
}

/// The line ends where its CRLF is completed.
proof fn lemma_line_completed(line: Seq<u8>, t: Seq<u8>)
    requires
        forall|i: int| !crlf_at(line, i),
        line.len() > 0,
        line.last() == 13,
    ensures
        line_end(line.push(10) + t) == line.len() - 1,
        (line.push(10) + t).take(line.len() - 1) == line.drop_last(),
        (line.push(10) + t).skip(line.len() as int + 1) == t,
{
    let s = line.push(10) + t;
    let e = line.len() - 1;
    assert(crlf_at(s, e));
    assert forall|j: int| 0 <= j < e implies !crlf_at(s, j) by {
        if crlf_at(s, j) {
            assert(crlf_at(line, j));
        }
    }
    lemma_line_end(s, e);
    assert(s.take(e) == line.drop_last());
    assert(s.skip(e + 2) == t);
}

proof fn lemma_knows_line(scan: ChunkScan, line: Seq<u8>, b: u8)
    requires
        knows_line(scan, line),
    ensures
        knows_line(scan_after(scan, b), line_after(scan, line, b)),
{
    let next = line_after(scan, line, b);
    assert(hex_value(Seq::<u8>::empty()) == 0 && hex_len(Seq::<u8>::empty()) == 0);
    match scan {
        ChunkScan::Size { size, cr } => {
            if !(cr && b == 10) {
                lemma_no_crlf_push(line, b);
                let c = line_content(line);
                let absorbed = if cr {
                    size_after(size, 13)
                } else {
                    size
                };
                if cr {
                    lemma_size_after(size, c, 13);
                    assert(c.push(13) == line);
                }
                assert(size_reads(absorbed, line));
                if b == 13 {
                    assert(next.drop_last() == line);
                } else {
                    lemma_size_after(absorbed, line, b);
                }
            }
        },
        ChunkScan::Trailer { empty, cr } => {
            if !(cr && b == 10) {
                lemma_no_crlf_push(line, b);
                if b == 13 {
                    assert(next.drop_last() == line);
                }
            }
        },
        _ => {},
    }
}

proof fn lemma_finishes(scan: ChunkScan, line: Seq<u8>, b: u8, t: Seq<u8>)
    requires
        knows_line(scan, line),
    ensures
        finishes(scan, line + (seq![b] + t)) == finishes(
            scan_after(scan, b),
            line_after(scan, line, b) + t,
        ),
{
    let s = line + (seq![b] + t);
    let next = scan_after(scan, b);
    let rest = line_after(scan, line, b) + t;
    assert(s == line.push(b) + t);
    assert(Seq::<u8>::empty() + t == t);
    match scan {
        ChunkScan::Size { size, cr } => {
            if cr && b == 10 {
                lemma_line_completed(line, t);
                lemma_size_of_scan(size, line.drop_last());
                let e = line.len() - 1;
                match size_of_scan(size) {
                    None => {},
                    Some(n) => {
                        if n > 0 {
                            assert(crlf_at(s, e + 2 + n) == crlf_at(t, n as int)) by {
                                assert(s.len() == t.len() + e + 2);
                                if n + 1 < t.len() {
                                    assert(s[e + 2 + n] == t[n as int]);
                                    assert(s[e + 2 + n + 1] == t[n + 1]);
                                }
                            }
                            if n + 2 <= t.len() {
                                assert(s.skip(e + 2 + n + 2) == t.skip(n + 2));
                            }
                        }
                    },
                }
            }
        },
        ChunkScan::Data { left } => {
            assert(s == seq![b] + t);
            if left > 0 {
                assert(crlf_at(s, left as int) == crlf_at(t, left - 1)) by {
                    if left < t.len() {
                        assert(s[left as int] == t[left - 1]);
                        assert(s[left + 1] == t[left as int]);
                    }
                }
                if left + 1 <= t.len() {
                    assert(s.skip(left + 2) == t.skip(left + 1));
                }
            } else if t.len() > 0 {
                assert(s[1] == t[0]);
                assert(s.skip(2) == t.skip(1));
            }
        },
        ChunkScan::DataEnd => {
            assert(s == seq![b] + t);
            assert(s.skip(1) == t);
        },
        ChunkScan::Trailer { empty, cr } => {
            if cr && b == 10 {
                lemma_line_completed(line, t);
            }
        },
        _ => {},
    }
}

proof fn lemma_scan_step(scan: ChunkScan, line: Seq<u8>, seen: Seq<u8>, b: u8)
    requires
        knows_line(scan, line),
        stands_for(scan, line, seen),
    ensures
        knows_line(scan_after(scan, b), line_after(scan, line, b)),
        stands_for(scan_after(scan, b), line_after(scan, line, b), seen.push(b)),
{
    lemma_knows_line(scan, line, b);
    assert forall|t: Seq<u8>|
        (#[trigger] chunked_end(seen.push(b) + t) is Some) == finishes(
            scan_after(scan, b),
            line_after(scan, line, b) + t,
        ) by {
        lemma_finishes(scan, line, b, t);
        assert(seen.push(b) + t == seen + (seq![b] + t));
        assert((chunked_end(seen + (seq![b] + t)) is Some) == finishes(
            scan,
            line + (seq![b] + t),
        ));
    }
}

proof fn lemma_scan_done(scan: ChunkScan, line: Seq<u8>, seen: Seq<u8>)
    requires
        knows_line(scan, line),
        stands_for(scan, line, seen),
    ensures
        chunked_end(seen) is Some == (scan == ChunkScan::Done),
{
    let none = Seq::<u8>::empty();
    assert(seen + none == seen);
    assert(line + none == line);
    assert((chunked_end(seen + none) is Some) == finishes(scan, line + none));
    lemma_line_end_bound(line);
    if scan is Size || scan is Trailer {
        if line_end(line) < line.len() {
            assert(crlf_at(line, line_end(line)));
        }
    }
}

/// Watches a chunked body for its end.
pub struct ChunkedCopy {
    scan: ChunkScan,
    line: Ghost<Seq<u8>>,
    seen: Ghost<Seq<u8>>,
}

impl ChunkedCopy {
    /// All bytes of the body so far.
    pub closed spec fn seen(&self) -> Seq<u8> {
        self.seen@
    }

    pub closed spec fn wf(&self) -> bool {
        knows_line(self.scan, self.line@) && stands_for(self.scan, self.line@, self.seen@)
    }

    pub fn new() -> (r: Self)
        ensures
            r.wf(),
            r.seen() == Seq::<u8>::empty(),
    {
        let r = ChunkedCopy {
            scan: ChunkScan::Size { size: SizeScan::Digits { size: 0, any: false }, cr: false },
            line: Ghost(Seq::empty()),
            seen: Ghost(Seq::empty()),
        };
        proof {
            assert(hex_value(Seq::<u8>::empty()) == 0 && hex_len(Seq::<u8>::empty()) == 0);
            assert forall|t: Seq<u8>|
                (#[trigger] chunked_end(r.seen@ + t) is Some) == finishes(r.scan, r.line@ + t) by {
                assert(r.seen@ + t == t);
                assert(r.line@ + t == t);
            }
        }
        r
    }

    /// Goes on with a body of which these bytes were copied.
    pub fn resume(sent: &[u8]) -> (r: Self)
        ensures
            r.wf(),
            r.seen() == sent@,
    {
        let mut r = ChunkedCopy::new();
        let _ended = r.copied(sent);
        assert(Seq::<u8>::empty() + sent@ == sent@);
        r
    }

    /// Accounts for the next bytes read and copied. Returns whether copying is
    /// over: the sender closed, or the end of the body was copied.
    pub fn copied(&mut self, chunk: &[u8]) -> (r: bool)
        requires
            old(self).wf(),
        ensures
            final(self).wf(),
            final(self).seen() == old(self).seen() + chunk@,
            r == (chunk@.len() == 0 || chunked_end(final(self).seen()) is Some),
    {
        let ghost start = self.seen@;
        let mut i: usize = 0;
        assert(start + chunk@.take(0) == start);
        while i < chunk.len()
            invariant
                i <= chunk@.len(),
                self.wf(),
                self.seen@ == start + chunk@.take(i as int),
            decreases chunk@.len() - i,
        {
            let b: u8 = chunk[i];
            let ghost line = self.line@;
            let ghost seen = self.seen@;
            proof {
                lemma_scan_step(self.scan, line, seen, b);
                assert(seen.push(b) == start + chunk@.take(i + 1));
            }
            let next = scan_byte(self.scan, b);
            self.line = Ghost(line_after(self.scan, line, b));
            self.seen = Ghost(seen.push(b));
            self.scan = next;
            i += 1;
        }
        assert(chunk@.take(chunk@.len() as int) == chunk@);
        proof {
            lemma_scan_done(self.scan, self.line@, self.seen@);
        }
        if chunk.len() == 0 {
            return true;
        }
        match self.scan {
            ChunkScan::Done => true,
            _ => false,
        }
    }
}

/// Whether the chunked body that starts `bytes` ends within them.
pub fn chunked_is_complete(bytes: &[u8]) -> (r: bool)
    ensures
        r == (chunked_end(bytes@) is Some),
{
    let mut copy = ChunkedCopy::new();
    let over = copy.copied(bytes);
    assert(Seq::<u8>::empty() + bytes@ == bytes@);
    if bytes.len() == 0 {
        return false;
    }
    over
}

/// The bytes of all chunks in a row.
pub open spec fn joined(chunks: Seq<Seq<u8>>) -> Seq<u8>
    decreases chunks.len(),
{
    if chunks.len() == 0 {
        Seq::empty()
    } else {
        joined(chunks.drop_last()) + chunks.last()
    }
}

proof fn lemma_line_end_prefix(s: Seq<u8>, t: Seq<u8>)
    requires
        line_end(s) < s.len(),
    ensures
        line_end(s + t) == line_end(s),
{
    lemma_line_end_bound(s);
    let e = line_end(s);
    assert(crlf_at(s + t, e));
    assert forall|j: int| 0 <= j < e implies !crlf_at(s + t, j) by {
        assert(!crlf_at(s, j));
    }
    lemma_line_end(s + t, e);
}

proof fn lemma_trailer_end_is_stable(s: Seq<u8>, t: Seq<u8>)
    requires
        trailer_end(s) is Some,
    ensures
        0 < trailer_end(s)->0 <= s.len(),
        trailer_end(s + t) == trailer_end(s),
    decreases s.len(),
{
    let e = line_end(s);
    lemma_line_end_bound(s);
    lemma_line_end_prefix(s, t);
    if e > 0 {
        lemma_trailer_end_is_stable(s.skip(e + 2), t);
        assert((s + t).skip(e + 2) == s.skip(e + 2) + t);
    }
}

/// A chunked body ends within the bytes at hand, and further bytes do not change
/// where it ends.
pub proof fn law_chunked_end_is_stable(s: Seq<u8>, t: Seq<u8>)
    requires
        chunked_end(s) is Some,
    ensures
        0 < chunked_end(s)->0 <= s.len(),
        chunked_end(s + t) == chunked_end(s),
    decreases s.len(),
{
    let e = line_end(s);
    lemma_line_end_bound(s);
    lemma_line_end_prefix(s, t);
    assert((s + t).take(e) == s.take(e));
    let size = chunk_size(s.take(e))->0;
    if size == 0 {
        lemma_trailer_end_is_stable(s.skip(e + 2), t);
        assert((s + t).skip(e + 2) == s.skip(e + 2) + t);
    } else {
        let next = e + 2 + size + 2;
        law_chunked_end_is_stable(s.skip(next), t);
        assert((s + t).skip(next) == s.skip(next) + t);
        assert(crlf_at(s + t, next - 2));
    }
}

/// The hexadecimal notation of `n`.
pub open spec fn hex_text(n: nat) -> Seq<u8>
    decreases n,
{
    let d: u8 = if n % 16 < 10 {
        (48 + n % 16) as u8
    } else {
        (87 + n % 16) as u8
    };
    if n < 16 {
        seq![d]
    } else {
        hex_text(n / 16).push(d)
    }
}

/// A chunked body that carries these chunks.
pub open spec fn chunked_body(chunks: Seq<Seq<u8>>) -> Seq<u8>
    decreases chunks.len(),
{
    if chunks.len() == 0 {
        hex_text(0) + crlf() + crlf()
    } else {
        hex_text(chunks[0].len()) + crlf() + chunks[0] + crlf() + chunked_body(chunks.drop_first())
    }
}

proof fn lemma_hex_text(n: nat)
    ensures
        hex_text(n).len() > 0,
        hex_len(hex_text(n)) == hex_text(n).len(),
        hex_value(hex_text(n)) == n,
        forall|i: int| 0 <= i < hex_text(n).len() ==> is_hex(#[trigger] hex_text(n)[i]),
    decreases n,
{
    let all = hex_text(n);
    if n < 16 {
        assert(all.drop_first() == Seq::<u8>::empty());
        assert(all.drop_last() == Seq::<u8>::empty());
        assert(hex_len(Seq::<u8>::empty()) == 0);
        assert(hex_value(Seq::<u8>::empty()) == 0);
    } else {
        let front = hex_text(n / 16);
        lemma_hex_text(n / 16);
        lemma_hex_len_push(front, all.last());
        assert(all == front.push(all.last()));
        assert(all.drop_last() == front);
    }
}

proof fn lemma_size_line(n: nat, rest: Seq<u8>)
    requires
        n <= u64::MAX,
    ensures
        line_end(hex_text(n) + crlf() + rest) == hex_text(n).len(),
        (hex_text(n) + crlf() + rest).take(hex_text(n).len() as int) == hex_text(n),
        (hex_text(n) + crlf() + rest).skip(hex_text(n).len() as int + 2) == rest,
        chunk_size(hex_text(n)) == Some(n as u64),
{
    let h = hex_text(n);
    let s = h + crlf() + rest;
    let e = h.len() as int;
    lemma_hex_text(n);
    assert(crlf_at(s, e));
    assert forall|j: int| 0 <= j < e implies !crlf_at(s, j) by {
        assert(s[j] == h[j]);
        assert(is_hex(h[j]));
    }
    lemma_line_end(s, e);
    assert(s.take(e) == h);
    assert(s.skip(e + 2) == rest);
    assert(h.take(e) == h);
}

/// Behind a chunk the body goes on, whatever the chunk holds.
proof fn lemma_one_chunk(data: Seq<u8>, tail: Seq<u8>)
    requires
        0 < data.len() <= u64::MAX,
    ensures
        ({
            let h = hex_text(data.len());
            chunked_end(h + crlf() + data + crlf() + tail) == shifted(
                chunked_end(tail),
                h.len() as int + 2 + data.len() + 2,
            )
        }),
{
    let n = data.len() as int;
    let h = hex_text(data.len());
    let rest = data + crlf() + tail;
    let s = h + crlf() + rest;
    lemma_size_line(data.len(), rest);
    assert(h + crlf() + data + crlf() + tail == s);
    let next = h.len() + 2 + n + 2;
    assert(s.skip(next) == tail);
    assert(s[next - 2] == 13 && s[next - 1] == 10);
    assert(crlf_at(s, next - 2));
}

proof fn lemma_last_chunk()
    ensures
        chunked_end(hex_text(0) + crlf() + crlf()) == Some(hex_text(0).len() as int + 4),
{
    lemma_size_line(0, crlf());
    assert(crlf_at(crlf(), 0));
    lemma_line_end(crlf(), 0);
    assert(trailer_end(crlf()) == Some(2int));
}

/// A chunked body ends just at its end, whatever bytes its chunks hold.
pub proof fn law_chunked_body_ends_at_its_end(chunks: Seq<Seq<u8>>)
    requires
        forall|i: int| 0 <= i < chunks.len() ==> 0 < (#[trigger] chunks[i]).len() <= u64::MAX,
    ensures
        chunked_end(chunked_body(chunks)) == Some(chunked_body(chunks).len() as int),
    decreases chunks.len(),
{
    if chunks.len() == 0 {
        lemma_last_chunk();
    } else {
        let rest = chunks.drop_first();
        assert forall|i: int| 0 <= i < rest.len() implies 0 < (#[trigger] rest[i]).len()
            <= u64::MAX by {
            assert(0 < chunks[i + 1].len() <= u64::MAX);
        }
        law_chunked_body_ends_at_its_end(rest);
        lemma_one_chunk(chunks[0], chunked_body(rest));
    }
}

/// However a chunked body is cut into reads, its end is noticed with the last byte
/// and not before.
pub proof fn law_chunked_end_is_noticed_in_time(chunks: Seq<Seq<u8>>, k: int)
    requires
        forall|i: int| 0 <= i < chunks.len() ==> 0 < (#[trigger] chunks[i]).len() <= u64::MAX,
        0 <= k <= chunked_body(chunks).len(),
    ensures
        chunked_end(chunked_body(chunks).take(k)) is Some <==> k == chunked_body(chunks).len(),
{
    let s = chunked_body(chunks);
    law_chunked_body_ends_at_its_end(chunks);
    if k == s.len() {
        assert(s.take(k) == s);
    } else if chunked_end(s.take(k)) is Some {
        law_chunked_end_is_stable(s.take(k), s.skip(k));
        assert(s.take(k) + s.skip(k) == s);
    }
}

/// Whether the end of a head is noticed does not depend on how the head was cut
/// into reads: after each read all bytes so far are searched.
pub proof fn law_head_is_read_whole(chunks: Seq<Seq<u8>>, next: Seq<u8>)
    requires
        next.len() > 0,
    ensures
        joined(chunks.push(next)) == joined(chunks) + next,
        read_step(joined(chunks), next) == ReadStep::Complete <==> occurs(
            joined(chunks.push(next)),
            head_end(),
        ),
{
    assert(chunks.push(next).drop_last() == chunks);
}

/// The number of bytes in all reads.
pub open spec fn total(reads: Seq<nat>) -> nat
    decreases reads.len(),
{
    if reads.len() == 0 {
        0
    } else {
        total(reads.drop_last()) + reads.last()
    }
}

/// Whether `states` are the bytes that an exact copy has left before and after each
/// of these reads.
pub open spec fn exact_run(states: Seq<u64>, reads: Seq<nat>) -> bool {
    &&& states.len() == reads.len() + 1
    &&& forall|k: int|
        0 <= k < reads.len() ==> reads[k] <= #[trigger] states[k] && states[k + 1] == states[k]
            - reads[k]
}

/// An exact copy is done when exactly the announced number of bytes was copied.
pub proof fn law_exact_copy_is_exact(states: Seq<u64>, reads: Seq<nat>)
    requires
        exact_run(states, reads),
    ensures
        states.last() == 0 <==> total(reads) == states[0],
        total(reads) <= states[0],
{
    lemma_exact_run(states, reads);
}

proof fn lemma_exact_run(states: Seq<u64>, reads: Seq<nat>)
    requires
        exact_run(states, reads),
    ensures
        states.last() + total(reads) == states[0],
    decreases reads.len(),
{
    if reads.len() > 0 {
        let n = reads.len() - 1;
        let s = states.drop_last();
        let r = reads.drop_last();
        assert forall|k: int| 0 <= k < r.len() implies r[k] <= #[trigger] s[k] && s[k + 1] == s[k]
            - r[k] by {
            assert(reads[k] <= states[k]);
        }
        lemma_exact_run(s, r);
        assert(reads[n] <= states[n]);
        assert(states[n + 1] == states[n] - reads[n]);
    }
}

/// What the search for the end of a head finds: nothing was sent, the sender closed
/// too early, an empty line is among the bytes so far, there were more than 65536
/// bytes without one, or more has to be read.
#[verifier::spinoff_prover]
pub proof fn law_search_for_the_head(buf: Seq<u8>, chunk: Seq<u8>, i: int)
    ensures
        ({
            let all = buf + chunk;
            let ends_at = |k: int|
                0 <= k && k + 3 < all.len() && all[k] == 13 && all[k + 1] == 10 && all[k + 2] == 13
                    && all[k + 3] == 10;
            &&& chunk.len() == 0 && buf.len() == 0 ==> read_step(buf, chunk) == ReadStep::CleanEof
            &&& chunk.len() == 0 && buf.len() > 0 ==> read_step(buf, chunk) == ReadStep::Truncated
            &&& chunk.len() > 0 && ends_at(i) ==> read_step(buf, chunk) == ReadStep::Complete
            &&& chunk.len() > 0 && (forall|k: int| !#[trigger] ends_at(k)) ==> read_step(buf, chunk)
                == (if buf.len() + chunk.len() > 65536 {
                ReadStep::TooLarge
            } else {
                ReadStep::NeedMore
            })
        }),
{
    let all = buf + chunk;
    let ends_at = |k: int|
        0 <= k && k + 3 < all.len() && all[k] == 13 && all[k + 1] == 10 && all[k + 2] == 13 && all[k
            + 3] == 10;
    if ends_at(i) {
        assert(all.subrange(i, i + 4) =~= head_end());
        assert(occurs_at(all, head_end(), i));
    }
    if occurs(all, head_end()) {
        let k = choose|k: int| occurs_at(all, head_end(), k);
        let piece = all.subrange(k, k + 4);
        assert(piece[0] == 13 && piece[1] == 10 && piece[2] == 13 && piece[3] == 10);
        assert(ends_at(k));
    }
}

/// Of the running reader: it keeps every byte that it is fed, in order.
pub proof fn law_reader_keeps_the_bytes(chunk: &[u8], r: ReadStep)
    ensures
        forall|x: &mut HeadReader| #[trigger]
            call_ensures(HeadReader::feed, (x, chunk), r) ==> {
                &&& (*final(x)).buf@ == (*x).buf@ + chunk@
                &&& r == read_step((*x).buf@, chunk@)
            },
{
}

/// An exact copy reads until nothing is left, never past the end and never more than
/// the buffer holds, and as much as it may.
pub proof fn law_exact_copy_reads_on(c: ExactCopy, capacity: usize, r: CopyStep)
    requires
        capacity > 0,
        call_ensures(ExactCopy::next, (&c, capacity), r),
    ensures
        c.remaining == 0 <==> r == CopyStep::Done,
        r matches CopyStep::Read(n) ==> {
            &&& 0 < n <= capacity
            &&& n <= c.remaining
            &&& n == capacity || n == c.remaining
        },
{
}

/// What was copied is not left any more; only a read of nothing stops the copy.
pub proof fn law_exact_copy_counts_down(n: usize, r: bool)
    ensures
        forall|c: &mut ExactCopy| #[trigger]
            call_ensures(ExactCopy::copied, (c, n), r) && n <= (*c).remaining ==> {
                &&& (*final(c)).remaining == (*c).remaining - n
                &&& r <==> n > 0
            },
{
}

/// The value of a hexadecimal digit, and that nothing else is one.
pub proof fn law_hex_digits(b: u8)
    ensures
        is_hex(b) <==> (48 <= b && b <= 57) || (97 <= b && b <= 102) || (65 <= b && b
            <= 70),
        48 <= b && b <= 57 ==> hex_of(b) == b - 48,
        97 <= b && b <= 102 ==> hex_of(b) == b - 97 + 10,
        65 <= b && b <= 70 ==> hex_of(b) == b - 65 + 10,
{
}

/// Each further digit makes a hexadecimal number sixteen times as large and adds
/// itself.
pub proof fn law_hex_is_positional(s: Seq<u8>, b: u8)
    ensures
        hex_value(Seq::empty()) == 0,
        hex_value(s.push(b)) == hex_value(s) * 16 + hex_of(b),
{
    assert(s.push(b).drop_last() == s);
}

proof fn lemma_hex_run(digits: Seq<u8>, rest: Seq<u8>)
    requires
        forall|i: int| 0 <= i < digits.len() ==> is_hex(#[trigger] digits[i]),
        rest.len() > 0 ==> !is_hex(rest[0]),
    ensures
        hex_len(digits + rest) == digits.len(),
    decreases digits.len(),
{
    let s = digits + rest;
    if digits.len() > 0 {
        assert(is_hex(digits[0]));
        assert(s.drop_first() == digits.drop_first() + rest);
        assert forall|i: int| 0 <= i < digits.drop_first().len() implies is_hex(
            #[trigger] digits.drop_first()[i],
        ) by {
            assert(is_hex(digits[i + 1]));
        }
        lemma_hex_run(digits.drop_first(), rest);
    } else {
        assert(s == rest);
    }
}

/// The size of a chunk is the hexadecimal number that its first line starts with. An
/// extension may follow behind a semicolon or white space, and does not matter; with
/// anything else behind the digits, without digits, and beyond the range of sizes,
/// there is no size.
pub proof fn law_chunk_size(digits: Seq<u8>, rest: Seq<u8>)
    requires
        forall|i: int| 0 <= i < digits.len() ==> is_hex(#[trigger] digits[i]),
        rest.len() > 0 ==> !is_hex(rest[0]),
    ensures
        ({
            let proper = rest.len() == 0 || rest[0] == 59 || rest[0] == 32 || rest[0] == 9;
            &&& digits.len() > 0 && proper && hex_value(digits) <= 0xffff_ffff_ffff_ffff
                ==> chunk_size(digits + rest) == Some(hex_value(digits) as u64)
            &&& digits.len() == 0 || !proper || hex_value(digits) > 0xffff_ffff_ffff_ffff
                ==> chunk_size(digits + rest) is None
        }),
{
    lemma_hex_run(digits, rest);
    let s = digits + rest;
    assert(s.take(digits.len() as int) =~= digits);
    if rest.len() > 0 {
        assert(s[digits.len() as int] == rest[0]);
    }
}

proof fn lemma_first_line_of(line: Seq<u8>, rest: Seq<u8>)
    requires
        forall|i: int| !#[trigger] crlf_at(line, i),
        line.len() > 0 ==> line.last() != 13,
    ensures
        line_end(line + seq![13u8, 10u8] + rest) == line.len(),
        (line + seq![13u8, 10u8] + rest).take(line.len() as int) == line,
        (line + seq![13u8, 10u8] + rest).skip(line.len() as int + 2) == rest,
{
    let s = line + seq![13u8, 10u8] + rest;
    let n = line.len() as int;
    assert(crlf_at(s, n));
    assert forall|j: int| 0 <= j < n implies !crlf_at(s, j) by {
        if crlf_at(s, j) {
            if j + 1 < n {
                assert(crlf_at(line, j));
            } else {
                assert(s[j] == line.last());
            }
        }
    }
    lemma_line_end(s, n);
    assert(s.take(n) =~= line);
    assert(s.skip(n + 2) =~= rest);
}

/// How a chunked body is read, from its front. A chunk is a line with its size, that
/// many bytes and CRLF, and the body goes on behind it, whatever the bytes are. With
/// the chunk of size zero the trailer begins. A body whose size line is no size, or
/// whose chunk is not followed by CRLF, has no end.
#[verifier::spinoff_prover]
pub proof fn law_chunked_body_from_the_front(
    line: Seq<u8>,
    data: Seq<u8>,
    rest: Seq<u8>,
    size: u64,
)
    requires
        forall|i: int| !#[trigger] crlf_at(line, i),
        line.len() > 0 ==> line.last() != 13,
    ensures
        chunk_size(line) == Some(size) && size > 0 && data.len() == size ==> chunked_end(
            line + seq![13u8, 10u8] + (data + seq![13u8, 10u8] + rest),
        ) == (match chunked_end(rest) {
            Some(end) => Some(line.len() + 2 + data.len() + 2 + end),
            None => None,
        }),
        chunk_size(line) == Some(size) && size > 0 && data.len() == size && rest.len() >= 2 && !(
        rest[0] == 13 && rest[1] == 10) ==> chunked_end(
            line + seq![13u8, 10u8] + (data + rest),
        ) is None,
        chunk_size(line) == Some(0u64) ==> chunked_end(line + seq![13u8, 10u8] + rest) == (
        match trailer_end(rest) {
            Some(end) => Some(line.len() + 2 + end),
            None => None,
        }),
        chunk_size(line) is None ==> chunked_end(line + seq![13u8, 10u8] + rest) is None,
{
    lemma_first_line_of(line, rest);
    if chunk_size(line) == Some(size) && size > 0 && data.len() == size {
        lemma_chunk_ends_well(line, data, rest, size);
        lemma_chunk_ends_badly(line, data, rest, size);
    }
}

proof fn lemma_chunk_ends_well(line: Seq<u8>, data: Seq<u8>, rest: Seq<u8>, size: u64)
    requires
        forall|i: int| !#[trigger] crlf_at(line, i),
        line.len() > 0 ==> line.last() != 13,
        chunk_size(line) == Some(size),
        size > 0,
        data.len() == size,
    ensures
        chunked_end(line + seq![13u8, 10u8] + (data + seq![13u8, 10u8] + rest)) == shifted(
            chunked_end(rest),
            line.len() as int + 2 + data.len() + 2,
        ),
{
    let full = data + seq![13u8, 10u8] + rest;
    let s = line + seq![13u8, 10u8] + full;
    lemma_first_line_of(line, full);
    let next = line.len() + 2 + size + 2;
    assert(s[next - 2] == 13 && s[next - 1] == 10);
    assert(crlf_at(s, next - 2));
    assert(s.skip(next) =~= rest);
}

proof fn lemma_chunk_ends_badly(line: Seq<u8>, data: Seq<u8>, rest: Seq<u8>, size: u64)
    requires
        forall|i: int| !#[trigger] crlf_at(line, i),
        line.len() > 0 ==> line.last() != 13,
        chunk_size(line) == Some(size),
        size > 0,
        data.len() == size,
    ensures
        rest.len() >= 2 && !(rest[0] == 13 && rest[1] == 10) ==> chunked_end(
            line + seq![13u8, 10u8] + (data + rest),
        ) is None,
{
    let s = line + seq![13u8, 10u8] + (data + rest);
    lemma_first_line_of(line, data + rest);
    let next = line.len() + 2 + size + 2;
    if rest.len() >= 2 && !(rest[0] == 13 && rest[1] == 10) {
        assert(s[next - 2] == rest[0] && s[next - 1] == rest[1]);
        assert(!crlf_at(s, next - 2));
    }
}

/// A trailer is lines up to the first empty one, which ends the body.
#[verifier::spinoff_prover]
pub proof fn law_trailer(line: Seq<u8>, rest: Seq<u8>)
    requires
        line.len() > 0,
        forall|i: int| !#[trigger] crlf_at(line, i),
        line.last() != 13,
    ensures
        trailer_end(seq![13u8, 10u8] + rest) == Some(2int),
        trailer_end(line + seq![13u8, 10u8] + rest) == (match trailer_end(rest) {
            Some(end) => Some(line.len() + 2 + end),
            None => None,
        }),
        trailer_end(line) is None,
        trailer_end(Seq::empty()) is None,
{
    let none = Seq::<u8>::empty();
    lemma_first_line_of(line, rest);
    lemma_first_line_of(none, rest);
    assert(none + seq![13u8, 10u8] + rest =~= seq![13u8, 10u8] + rest);
    assert forall|j: int| 0 <= j < line.len() implies !crlf_at(line, j) by {}
    lemma_line_end(line, line.len() as int);
}

/// Of the running copy: it is over just when the sender closed, or when the body ends
/// within all that was copied so far.
pub proof fn law_chunked_copy_ends_with_the_body(chunk: &[u8], r: bool)
    ensures
        forall|c: &mut ChunkedCopy| #[trigger]
            call_ensures(ChunkedCopy::copied, (c, chunk), r) && (*c).wf() ==> {
                &&& (*final(c)).seen() == (*c).seen() + chunk@
                &&& r <==> chunk@.len() == 0 || chunked_end((*c).seen() + chunk@) is Some
            },
{
}

/// Of the running code: a copy starts with nothing copied, or with the bytes that it
/// goes on from, and a body is complete just if it ends within the bytes at hand.
pub proof fn law_copies_start(
    sent: &[u8],
    a: ChunkedCopy,
    b: ChunkedCopy,
    c: ExactCopy,
    n: u64,
    d: HeadReader,
    r: bool,
)
    ensures
        call_ensures(ChunkedCopy::new, (), a) ==> a.wf() && a.seen().len() == 0,
        call_ensures(ChunkedCopy::resume, (sent,), b) ==> b.wf() && b.seen() == sent@,
        call_ensures(ExactCopy::new, (n,), c) ==> c.remaining == n,
        call_ensures(HeadReader::new, (), d) ==> d.buf@.len() == 0,
        call_ensures(chunked_is_complete, (sent,), r) ==> (r <==> chunked_end(sent@) is Some),
{
}

} // verus!

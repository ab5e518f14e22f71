//! Big-endian integers, NUL-terminated strings and 16-byte alignment over an
//! in-memory byte source, and the matching writers over a growing buffer.
use vstd::prelude::*;
use vstd::string::StringSliceAdditionalSpecFns;
use vstd::utf8::{decode_utf8, encode_utf8, valid_utf8};

verus! {

/// Big-endian value of the two bytes at `p`.
pub open spec fn be16_at(s: Seq<u8>, p: int) -> u16 {
    (s[p] as int * 0x100 + s[p + 1] as int) as u16
}

/// Big-endian value of the four bytes at `p`.
pub open spec fn be32_at(s: Seq<u8>, p: int) -> u32 {
    (s[p] as int * 0x100_0000 + s[p + 1] as int * 0x1_0000 + s[p + 2] as int * 0x100
        + s[p + 3] as int) as u32
}

/// Big-endian value of the eight bytes at `p`.
pub open spec fn be64_at(s: Seq<u8>, p: int) -> u64 {
    (be32_at(s, p) as int * 0x1_0000_0000 + be32_at(s, p + 4) as int) as u64
}

/// Index of the first zero byte at or after `p`, or -1 when there is none.
pub open spec fn nul_from(s: Seq<u8>, p: int) -> int
    decreases s.len() - p,
{
    if p < 0 || p >= s.len() {
        -1
    } else if s[p] == 0 {
        p
    } else {
        nul_from(s, p + 1)
    }
}

/// `n` bytes at `p`, and the position after them.
pub open spec fn bytes_at(s: Seq<u8>, p: int, n: int) -> Option<(Seq<u8>, int)> {
    if 0 <= p && 0 <= n && p + n <= s.len() {
        Some((s.subrange(p, p + n), p + n))
    } else {
        None
    }
}

pub open spec fn u16_at(s: Seq<u8>, p: int) -> Option<(u16, int)> {
    if 0 <= p && p + 2 <= s.len() {
        Some((be16_at(s, p), p + 2))
    } else {
        None
    }
}

pub open spec fn u32_at(s: Seq<u8>, p: int) -> Option<(u32, int)> {
    if 0 <= p && p + 4 <= s.len() {
        Some((be32_at(s, p), p + 4))
    } else {
        None
    }
}

pub open spec fn u64_at(s: Seq<u8>, p: int) -> Option<(u64, int)> {
    if 0 <= p && p + 8 <= s.len() {
        Some((be64_at(s, p), p + 8))
    } else {
        None
    }
}

/// The bytes of a NUL-terminated string at `p` (terminator excluded), and the
/// position after the terminator.
pub open spec fn cstr_at(s: Seq<u8>, p: int) -> Option<(Seq<u8>, int)> {
    let e = nul_from(s, p);
    if e < 0 {
        None
    } else {
        Some((s.subrange(p, e), e + 1))
    }
}

/// `p` rounded up to the next multiple of 16.
pub open spec fn align16(p: int) -> int {
    if p % 16 == 0 {
        p
    } else {
        p + (16 - p % 16)
    }
}

/// Position after aligning `p` to 16 in a source of `len` bytes. Every read
/// from a position past the end fails, as it does from the end itself unless
/// it reads nothing, so a position past the end is held as the end.
pub open spec fn align16_within(p: int, len: int) -> int {
    if align16(p) > len {
        len
    } else {
        align16(p)
    }
}

/// Position after skipping `n` bytes from `p`, held at the end as above.
pub open spec fn skip_within(p: int, n: int, len: int) -> int {
    if p + n > len {
        len
    } else {
        p + n
    }
}

/// What std's lossy UTF-8 conversion makes of bytes that are not valid UTF-8.
pub uninterp spec fn utf8_lossy(b: Seq<u8>) -> Seq<char>;

/// The text that bytes read as a string stand for: their UTF-8 decoding when
/// they are valid, else the lossy conversion.
pub open spec fn text_of(b: Seq<u8>) -> Seq<char> {
    if valid_utf8(b) {
        decode_utf8(b)
    } else {
        utf8_lossy(b)
    }
}

/// Relies on `String::from_utf8_lossy`: valid UTF-8 is decoded as it is,
/// anything else gets replacement characters, depending on the bytes alone.
#[verifier::external_body]
pub(crate) fn string_from_bytes(b: &[u8]) -> (r: String)
    ensures
        valid_utf8(b@) ==> r@ == decode_utf8(b@),
        !valid_utf8(b@) ==> r@ == utf8_lossy(b@),
{
    String::from_utf8_lossy(b).into_owned()
}

/// A seekable in-memory byte source with a read position.
pub struct ByteReader {
    data: Vec<u8>,
    pos: usize,
}

impl ByteReader {
    /// The bytes of the source.
    pub closed spec fn bytes(&self) -> Seq<u8> {
        self.data@
    }

    /// The read position.
    pub closed spec fn position(&self) -> int {
        self.pos as int
    }

    pub closed spec fn wf(&self) -> bool {
        self.pos <= self.data.len()
    }

    pub fn new(data: Vec<u8>) -> (r: Self)
        ensures
            r.wf(),
            r.bytes() == data@,
            r.position() == 0,
    {
        ByteReader { data, pos: 0 }
    }

    pub fn len(&self) -> (r: usize)
        ensures
            r == self.bytes().len(),
    {
        self.data.len()
    }

    /// Reads `n` bytes, or leaves the position as it is when fewer are left.
    pub fn read_bytes(&mut self, n: usize) -> (r: Option<Vec<u8>>)
        requires
            old(self).wf(),
        ensures
            final(self).wf(),
            final(self).bytes() == old(self).bytes(),
            match bytes_at(old(self).bytes(), old(self).position(), n as int) {
                Some((b, q)) => r matches Some(v) && v@ == b && final(self).position() == q,
                None => r is None && final(self).position() == old(self).position(),
            },
    {
        if n > self.data.len() - self.pos {
            return None;
        }
        let mut out: Vec<u8> = Vec::new();
        let mut i: usize = self.pos;
        let end: usize = self.pos + n;
        while i < end
            invariant
                self.wf(),
                self.pos <= i <= end <= self.data.len(),
                out@ == self.data@.subrange(self.pos as int, i as int),
            decreases end - i,
        {
            out.push(self.data[i]);
            i = i + 1;
        }
        self.pos = end;
        Some(out)
    }

    pub fn read_u16(&mut self) -> (r: Option<u16>)
        requires
            old(self).wf(),
        ensures
            final(self).wf(),
            final(self).bytes() == old(self).bytes(),
            match u16_at(old(self).bytes(), old(self).position()) {
                Some((v, q)) => r == Some(v) && final(self).position() == q,
                None => r is None && final(self).position() == old(self).position(),
            },
    {
        if 2 > self.data.len() - self.pos {
            return None;
        }
        let p = self.pos;
        let v: u16 = self.data[p] as u16 * 0x100 + self.data[p + 1] as u16;
        self.pos = p + 2;
        Some(v)
    }

    pub fn read_u32(&mut self) -> (r: Option<u32>)
        requires
            old(self).wf(),
        ensures
            final(self).wf(),
            final(self).bytes() == old(self).bytes(),
            match u32_at(old(self).bytes(), old(self).position()) {
                Some((v, q)) => r == Some(v) && final(self).position() == q,
                None => r is None && final(self).position() == old(self).position(),
            },
    {
        if 4 > self.data.len() - self.pos {
            return None;
        }
        let p = self.pos;
        let v: u32 = self.data[p] as u32 * 0x100_0000 + self.data[p + 1] as u32 * 0x1_0000
            + self.data[p + 2] as u32 * 0x100 + self.data[p + 3] as u32;
        self.pos = p + 4;
        Some(v)
    }

    pub fn read_u64(&mut self) -> (r: Option<u64>)
        requires
            old(self).wf(),
        ensures
            final(self).wf(),
            final(self).bytes() == old(self).bytes(),
            match u64_at(old(self).bytes(), old(self).position()) {
                Some((v, q)) => r == Some(v) && final(self).position() == q,
                None => r is None && final(self).position() == old(self).position(),
            },
    {
        if 8 > self.data.len() - self.pos {
            return None;
        }
        let hi = self.read_u32().unwrap();
        let lo = self.read_u32().unwrap();
        Some(hi as u64 * 0x1_0000_0000 + lo as u64)
    }

    /// Reads a NUL-terminated string's bytes, terminator consumed and left out.
    pub fn read_cstr(&mut self) -> (r: Option<Vec<u8>>)
        requires
            old(self).wf(),
        ensures
            final(self).wf(),
            final(self).bytes() == old(self).bytes(),
            match cstr_at(old(self).bytes(), old(self).position()) {
                Some((b, q)) => r matches Some(v) && v@ == b && final(self).position() == q,
                None => r is None && final(self).position() == old(self).position(),
            },
    {
        let mut out: Vec<u8> = Vec::new();
        let mut i: usize = self.pos;
        while i < self.data.len()
            invariant
                self.wf(),
                self.data@ == old(self).data@,
                self.pos == old(self).pos,
                self.pos <= i <= self.data.len(),
                out@ == self.data@.subrange(self.pos as int, i as int),
                nul_from(self.data@, self.pos as int) == nul_from(self.data@, i as int),
            decreases self.data.len() - i,
        {
            if self.data[i] == 0 {
                self.pos = i + 1;
                return Some(out);
            }
            out.push(self.data[i]);
            i = i + 1;
        }
        None
    }

    /// Moves to the next multiple of 16, or to the end if that lies past it.
    pub fn align16(&mut self)
        requires
            old(self).wf(),
        ensures
            final(self).wf(),
            final(self).bytes() == old(self).bytes(),
            final(self).position() == align16_within(
                old(self).position(),
                old(self).bytes().len() as int,
            ),
    {
        let rem = self.pos % 16;
        if rem != 0 {
            let gap = 16 - rem;
            if gap > self.data.len() - self.pos {
                self.pos = self.data.len();
            } else {
                self.pos = self.pos + gap;
            }
        }
    }

    /// Moves `n` bytes forward, or to the end if that lies past it.
    pub fn skip(&mut self, n: usize)
        requires
            old(self).wf(),
        ensures
            final(self).wf(),
            final(self).bytes() == old(self).bytes(),
            final(self).position() == skip_within(
                old(self).position(),
                n as int,
                old(self).bytes().len() as int,
            ),
    {
        if n > self.data.len() - self.pos {
            self.pos = self.data.len();
        } else {
            self.pos = self.pos + n;
        }
    }

    /// Moves to `n` bytes before the end; fails, not moving, when the source
    /// is shorter than `n`.
    pub fn seek_from_end(&mut self, n: usize) -> (r: bool)
        requires
            old(self).wf(),
        ensures
            final(self).wf(),
            final(self).bytes() == old(self).bytes(),
            r == (n <= old(self).bytes().len()),
            r ==> final(self).position() == old(self).bytes().len() - n,
            !r ==> final(self).position() == old(self).position(),
    {
        if n > self.data.len() {
            false
        } else {
            self.pos = self.data.len() - n;
            true
        }
    }
}

/// Big-endian bytes of a `u16`.
pub open spec fn be16_bytes(v: u16) -> Seq<u8> {
    seq![(v / 0x100) as u8, (v % 0x100) as u8]
}

/// Big-endian bytes of a `u32`.
pub open spec fn be32_bytes(v: u32) -> Seq<u8> {
    seq![
        (v / 0x100_0000) as u8,
        ((v / 0x1_0000) % 0x100) as u8,
        ((v / 0x100) % 0x100) as u8,
        (v % 0x100) as u8,
    ]
}

/// Big-endian bytes of a `u64`.
pub open spec fn be64_bytes(v: u64) -> Seq<u8> {
    be32_bytes((v / 0x1_0000_0000) as u32) + be32_bytes((v % 0x1_0000_0000) as u32)
}

/// `n` zero bytes.
pub open spec fn zeros(n: nat) -> Seq<u8> {
    Seq::new(n, |i: int| 0u8)
}

/// `s` followed by the zero bytes that bring its length to a multiple of 16.
pub open spec fn pad16(s: Seq<u8>) -> Seq<u8> {
    s + zeros((align16(s.len() as int) - s.len()) as nat)
}

/// Appends the bytes of `b`.
pub fn push_bytes(out: &mut Vec<u8>, b: &[u8])
    ensures
        final(out)@ == old(out)@ + b@,
{
    let mut i: usize = 0;
    while i < b.len()
        invariant
            i <= b@.len(),
            out@ == old(out)@ + b@.subrange(0, i as int),
        decreases b.len() - i,
    {
        out.push(b[i]);
        i = i + 1;
        assert(b@.subrange(0, i as int) == b@.subrange(0, i - 1 as int).push(b@[i - 1]));
    }
    assert(b@.subrange(0, b@.len() as int) == b@);
}

pub fn push_u16(out: &mut Vec<u8>, v: u16)
    ensures
        final(out)@ == old(out)@ + be16_bytes(v),
{
    out.push((v / 0x100) as u8);
    out.push((v % 0x100) as u8);
    assert(final(out)@ =~= old(out)@ + be16_bytes(v));
}

pub fn push_u32(out: &mut Vec<u8>, v: u32)
    ensures
        final(out)@ == old(out)@ + be32_bytes(v),
{
    out.push((v / 0x100_0000) as u8);
    out.push(((v / 0x1_0000) % 0x100) as u8);
    out.push(((v / 0x100) % 0x100) as u8);
    out.push((v % 0x100) as u8);
    assert(final(out)@ =~= old(out)@ + be32_bytes(v));
}

pub fn push_u64(out: &mut Vec<u8>, v: u64)
    ensures
        final(out)@ == old(out)@ + be64_bytes(v),
{
    push_u32(out, (v / 0x1_0000_0000) as u32);
    push_u32(out, (v % 0x1_0000_0000) as u32);
    assert(final(out)@ =~= old(out)@ + be64_bytes(v));
}

/// Appends the UTF-8 bytes of `s` and a NUL terminator.
pub fn push_cstr(out: &mut Vec<u8>, s: &str)
    ensures
        final(out)@ == old(out)@ + encode_utf8(s@).push(0),
{
    let b = s.as_bytes();
    assert(b@ == s.spec_bytes());
    push_bytes(out, b);
    out.push(0);
    assert(final(out)@ =~= old(out)@ + encode_utf8(s@).push(0));
}

/// Appends zero bytes up to the next multiple of 16.
pub fn push_pad16(out: &mut Vec<u8>)
    ensures
        final(out)@ == pad16(old(out)@),
{
    let ghost start = out@;
    while out.len() % 16 != 0
        invariant
            start.len() <= out@.len() <= align16(start.len() as int),
            out@ == start + zeros((out@.len() - start.len()) as nat),
        decreases align16(start.len() as int) - out@.len(),
    {
        out.push(0);
        assert(out@ =~= start + zeros((out@.len() - start.len()) as nat));
    }
    assert(out@.len() == align16(start.len() as int));
}

/// Overwrites the eight bytes at `at` with the big-endian bytes of `v`.
pub fn patch_u64(out: &mut Vec<u8>, at: usize, v: u64)
    requires
        at + 8 <= old(out)@.len(),
    ensures
        final(out)@ == old(out)@.subrange(0, at as int) + be64_bytes(v) + old(out)@.subrange(
            at + 8,
            old(out)@.len() as int,
        ),
{
    let mut bytes: Vec<u8> = Vec::new();
    push_u64(&mut bytes, v);
    assert(bytes@ =~= be64_bytes(v));
    let n = out.len();
    let mut i: usize = 0;
    while i < 8
        invariant
            i <= 8,
            n == out@.len(),
            at + 8 <= old(out)@.len(),
            bytes@ == be64_bytes(v),
            out@.len() == old(out)@.len(),
            forall|k: int| 0 <= k < at ==> out@[k] == old(out)@[k],
            forall|k: int| at <= k < at + i ==> out@[k] == bytes@[k - at],
            forall|k: int| at + 8 <= k < out@.len() ==> out@[k] == old(out)@[k],
        decreases 8 - i,
    {
        out.set(at + i, bytes[i]);
        i = i + 1;
    }
    assert(final(out)@ =~= old(out)@.subrange(0, at as int) + be64_bytes(v) + old(out)@.subrange(
        at + 8,
        old(out)@.len() as int,
    ));
}

} // verus!

use vstd::prelude::*;
use binread::io::Cursor;
use binread::BinReaderExt;

verus! {

/// The byte at `p`, if there is one.
pub open spec fn u8_at(s: Seq<u8>, p: int) -> Option<u8> {
    if 0 <= p && p + 1 <= s.len() {
        Some(s[p])
    } else {
        None
    }
}

/// The big-endian number made of the two bytes at `p` (first byte high).
pub open spec fn be_u16(s: Seq<u8>, p: int) -> u16 {
    (s[p] as int * 0x100 + s[p + 1] as int) as u16
}

/// The big-endian number made of the four bytes at `p` (first byte highest).
pub open spec fn be_u32(s: Seq<u8>, p: int) -> u32 {
    (s[p] as int * 0x1000000 + s[p + 1] as int * 0x10000 + s[p + 2] as int * 0x100
        + s[p + 3] as int) as u32
}

/// The big-endian `u16` at `p`, if its two bytes are there.
pub open spec fn u16_at(s: Seq<u8>, p: int) -> Option<u16> {
    if 0 <= p && p + 2 <= s.len() {
        Some(be_u16(s, p))
    } else {
        None
    }
}

/// The big-endian `u32` at `p`, if its four bytes are there.
pub open spec fn u32_at(s: Seq<u8>, p: int) -> Option<u32> {
    if 0 <= p && p + 4 <= s.len() {
        Some(be_u32(s, p))
    } else {
        None
    }
}

/// A number read from `s` reads the same when more bytes follow `s`.
pub proof fn lemma_u16_prefix(s: Seq<u8>, t: Seq<u8>, p: int)
    requires
        u16_at(s, p) is Some,
    ensures
        u16_at(s + t, p) == u16_at(s, p),
{
    assert((s + t)[p] == s[p] && (s + t)[p + 1] == s[p + 1]);
}

/// See `lemma_u16_prefix`.
pub proof fn lemma_u32_prefix(s: Seq<u8>, t: Seq<u8>, p: int)
    requires
        u32_at(s, p) is Some,
    ensures
        u32_at(s + t, p) == u32_at(s, p),
{
    assert((s + t)[p] == s[p] && (s + t)[p + 1] == s[p + 1]);
    assert((s + t)[p + 2] == s[p + 2] && (s + t)[p + 3] == s[p + 3]);
}

/// `BinReaderExt::read_be::<u8>` of binread on a cursor over `bytes` placed at `pos`.
/// Claimed: it reads the byte at `pos` when there is one, and fails otherwise.
#[verifier::external_body]
pub(crate) fn read_be_u8(bytes: &[u8], pos: usize) -> (r: Option<u8>)
    ensures
        r == u8_at(bytes@, pos as int),
{
    let mut cursor = Cursor::new(bytes);
    cursor.set_position(pos as u64);
    cursor.read_be::<u8>().ok()
}

/// `BinReaderExt::read_be::<u16>` of binread on a cursor over `bytes` placed at `pos`.
/// Claimed: when two bytes remain at `pos` it returns them as a big-endian number (first
/// byte high), and otherwise it fails.
#[verifier::external_body]
pub(crate) fn read_be_u16(bytes: &[u8], pos: usize) -> (r: Option<u16>)
    ensures
        r == u16_at(bytes@, pos as int),
{
    let mut cursor = Cursor::new(bytes);
    cursor.set_position(pos as u64);
    cursor.read_be::<u16>().ok()
}

/// `BinReaderExt::read_be::<u32>` of binread on a cursor over `bytes` placed at `pos`.
/// Claimed: when four bytes remain at `pos` it returns them as a big-endian number (first
/// byte highest), and otherwise it fails.
#[verifier::external_body]
pub(crate) fn read_be_u32(bytes: &[u8], pos: usize) -> (r: Option<u32>)
    ensures
        r == u32_at(bytes@, pos as int),
{
    let mut cursor = Cursor::new(bytes);
    cursor.set_position(pos as u64);
    cursor.read_be::<u32>().ok()
}

/// `String::from_utf8` of std. Claimed, as its documentation says: it succeeds exactly when
/// the bytes are valid UTF-8, and the string then holds the characters they encode.
#[verifier::external_body]
pub(crate) fn string_from_utf8(bytes: Vec<u8>) -> (r: Option<String>)
    ensures
        match r {
            Some(s) => vstd::utf8::valid_utf8(bytes@) && s@ == vstd::utf8::decode_utf8(bytes@),
            None => !vstd::utf8::valid_utf8(bytes@),
        },
{
    String::from_utf8(bytes).ok()
}

/// The `n` bytes at `p`, if they are all there.
pub open spec fn bytes_at(s: Seq<u8>, p: int, n: int) -> Option<Seq<u8>> {
    if 0 <= p && 0 <= n && p + n <= s.len() {
        Some(s.subrange(p, p + n))
    } else {
        None
    }
}

/// Copies the `n` bytes at `pos`; `None` when the input ends before them.
pub fn copy_bytes(bytes: &[u8], pos: usize, n: usize) -> (r: Option<Vec<u8>>)
    ensures
        match r {
            Some(v) => bytes_at(bytes@, pos as int, n as int) == Some(v@),
            None => bytes_at(bytes@, pos as int, n as int) is None,
        },
{
    if pos > bytes.len() || n > bytes.len() - pos {
        return None;
    }
    let mut out: Vec<u8> = Vec::new();
    let mut i: usize = 0;
    let len = bytes.len();
    while i < n
        invariant
            len == bytes@.len(),
            pos + n <= bytes@.len(),
            i <= n,
            out@ == bytes@.subrange(pos as int, pos + i),
        decreases n - i,
    {
        out.push(bytes[pos + i]);
        i = i + 1;
        assert(out@ =~= bytes@.subrange(pos as int, pos + i));
    }
    Some(out)
}

/// A byte buffer with a read position: what the class-file parsers read from.
pub struct ByteReader {
    data: Vec<u8>,
    pos: usize,
}

impl ByteReader {
    /// The read position never passes the end of the bytes.
    #[verifier::type_invariant]
    closed spec fn position_in_bounds(self) -> bool {
        self.pos <= self.data@.len()
    }

    /// The bytes held.
    pub closed spec fn data(&self) -> Seq<u8> {
        self.data@
    }

    /// The read position.
    pub closed spec fn pos(&self) -> int {
        self.pos as int
    }

    /// A reader over `data`, placed at its start.
    pub fn new(data: Vec<u8>) -> (r: Self)
        ensures
            r.data() == data@,
            r.pos() == 0,
    {
        ByteReader { data, pos: 0 }
    }

    /// The read position.
    pub fn position(&self) -> (r: usize)
        ensures
            r as int == self.pos(),
            self.pos() <= self.data().len(),
    {
        proof {
            use_type_invariant(self);
        }
        self.pos
    }

    /// The bytes held.
    pub fn bytes(&self) -> (r: &Vec<u8>)
        ensures
            r@ == self.data(),
    {
        &self.data
    }

    /// Reads a big-endian `u16` at the read position and moves past it; `None`, with the
    /// reader left where it was, when fewer than two bytes remain.
    pub fn read_u16(&mut self) -> (r: Option<u16>)
        ensures
            final(self).data() == old(self).data(),
            r == u16_at(old(self).data(), old(self).pos()),
            final(self).pos() == (if r is Some { old(self).pos() + 2 } else { old(self).pos() }),
    {
        proof {
            use_type_invariant(&*self);
        }
        assert(self.data@.len() == self.data.len());
        match read_be_u16(self.data.as_slice(), self.pos) {
            Some(v) => {
                self.pos = self.pos + 2;
                Some(v)
            },
            None => None,
        }
    }

    /// Reads a big-endian `u32` at the read position and moves past it; `None`, with the
    /// reader left where it was, when fewer than four bytes remain.
    pub fn read_u32(&mut self) -> (r: Option<u32>)
        ensures
            final(self).data() == old(self).data(),
            r == u32_at(old(self).data(), old(self).pos()),
            final(self).pos() == (if r is Some { old(self).pos() + 4 } else { old(self).pos() }),
    {
        proof {
            use_type_invariant(&*self);
        }
        assert(self.data@.len() == self.data.len());
        match read_be_u32(self.data.as_slice(), self.pos) {
            Some(v) => {
                self.pos = self.pos + 4;
                Some(v)
            },
            None => None,
        }
    }

    /// Moves the read position to `pos`, which must lie within the bytes.
    pub fn set_position(&mut self, pos: usize)
        requires
            pos <= old(self).data().len(),
        ensures
            final(self).data() == old(self).data(),
            final(self).pos() == pos,
    {
        self.pos = pos;
    }
}

} // verus!

verus! {

/// Whether `text` holds exactly the characters of `lit`.
pub fn text_is(text: &str, lit: &str) -> (r: bool)
    ensures
        r == (text@ == lit@),
{
    let a = text.to_owned();
    let b = lit.to_owned();
    a == b
}

} // verus!

use vstd::prelude::*;
use crate::error::ClassError;
use crate::reader::{be_u16, u8_at, u16_at, bytes_at, read_be_u8, read_be_u16, copy_bytes, string_from_utf8, ByteReader};

verus! {

/// One entry of a class file's constant pool.
#[allow(dead_code)]
#[derive(Debug)]
pub enum ConstantPoolTags {
    /// Name index.
    Class(u16),
    Fieldref(u16, u16),
    /// Class index, name-and-type index.
    Methodref(u16, u16),
    InterfaceMethodref(u16, u16),
    String(u16),
    Integer,
    Float,
    Long,
    Double,
    /// Name index, descriptor index.
    NameAndType(u16, u16),
    /// Length in bytes, text.
    Utf8(u16, String),
    MethodHandle,
    MethodType,
    InvokeDynamic,
}

/// What a constant-pool entry holds, with the text of a `Utf8` entry as characters.
pub enum ConstantView {
    Class(u16),
    Fieldref(u16, u16),
    Methodref(u16, u16),
    InterfaceMethodref(u16, u16),
    String(u16),
    Integer,
    Float,
    Long,
    Double,
    NameAndType(u16, u16),
    Utf8(u16, Seq<char>),
    MethodHandle,
    MethodType,
    InvokeDynamic,
}

impl DeepView for ConstantPoolTags {
    type V = ConstantView;

    open spec fn deep_view(&self) -> ConstantView {
        match self {
            ConstantPoolTags::Class(a) => ConstantView::Class(*a),
            ConstantPoolTags::Fieldref(a, b) => ConstantView::Fieldref(*a, *b),
            ConstantPoolTags::Methodref(a, b) => ConstantView::Methodref(*a, *b),
            ConstantPoolTags::InterfaceMethodref(a, b) => ConstantView::InterfaceMethodref(*a, *b),
            ConstantPoolTags::String(a) => ConstantView::String(*a),
            ConstantPoolTags::Integer => ConstantView::Integer,
            ConstantPoolTags::Float => ConstantView::Float,
            ConstantPoolTags::Long => ConstantView::Long,
            ConstantPoolTags::Double => ConstantView::Double,
            ConstantPoolTags::NameAndType(a, b) => ConstantView::NameAndType(*a, *b),
            ConstantPoolTags::Utf8(n, s) => ConstantView::Utf8(*n, s@),
            ConstantPoolTags::MethodHandle => ConstantView::MethodHandle,
            ConstantPoolTags::MethodType => ConstantView::MethodType,
            ConstantPoolTags::InvokeDynamic => ConstantView::InvokeDynamic,
        }
    }
}

/// The entry that a one-based constant-pool index names, if any.
pub open spec fn cp_entry(cp: Seq<ConstantView>, index: int) -> Option<ConstantView> {
    if 1 <= index <= cp.len() {
        Some(cp[index - 1])
    } else {
        None
    }
}

/// One constant-pool entry read at `p`: the entry and the position after it.
pub open spec fn spec_cp_entry(s: Seq<u8>, p: int) -> Result<(ConstantView, int), ClassError> {
    match u8_at(s, p) {
        None => Err(ClassError::UnexpectedEof),
        Some(tag) => if tag == 1 {
            match u16_at(s, p + 1) {
                None => Err(ClassError::UnexpectedEof),
                Some(len) => match bytes_at(s, p + 3, len as int) {
                    None => Err(ClassError::UnexpectedEof),
                    Some(b) => if vstd::utf8::valid_utf8(b) {
                        Ok((ConstantView::Utf8(len, vstd::utf8::decode_utf8(b)), p + 3 + len))
                    } else {
                        Err(ClassError::InvalidUtf8)
                    },
                },
            }
        } else if tag == 8 {
            match u16_at(s, p + 1) {
                None => Err(ClassError::UnexpectedEof),
                Some(i) => Ok((ConstantView::String(i), p + 3)),
            }
        } else if tag == 9 || tag == 10 || tag == 11 {
            match (u16_at(s, p + 1), u16_at(s, p + 3)) {
                (Some(a), Some(b)) => Ok(
                    (
                        if tag == 9 {
                            ConstantView::Fieldref(a, b)
                        } else if tag == 10 {
                            ConstantView::Methodref(a, b)
                        } else {
                            ConstantView::InterfaceMethodref(a, b)
                        },
                        p + 5,
                    ),
                ),
                _ => Err(ClassError::UnexpectedEof),
            }
        } else if tag == 7 {
            match u16_at(s, p + 1) {
                None => Err(ClassError::UnexpectedEof),
                Some(i) => Ok((ConstantView::Class(i), p + 3)),
            }
        } else if tag == 12 {
            match (u16_at(s, p + 1), u16_at(s, p + 3)) {
                (Some(a), Some(b)) => Ok((ConstantView::NameAndType(a, b), p + 5)),
                _ => Err(ClassError::UnexpectedEof),
            }
        } else {
            Err(ClassError::UnknownConstantTag(tag))
        },
    }
}

/// `n` constant-pool entries read one after another from `p`: the entries and the
/// position after the last.
pub open spec fn spec_cp_entries(s: Seq<u8>, p: int, n: nat) -> Result<
    (Seq<ConstantView>, int),
    ClassError,
>
    decreases n,
{
    if n == 0 {
        Ok((Seq::empty(), p))
    } else {
        match spec_cp_entry(s, p) {
            Err(e) => Err(e),
            Ok((e, q)) => match spec_cp_entries(s, q, (n - 1) as nat) {
                Err(err) => Err(err),
                Ok((rest, r)) => Ok((seq![e] + rest, r)),
            },
        }
    }
}

/// The constant pool that a class file announces with `count` (one more than its
/// number of entries), read from `p`.
pub open spec fn spec_constant_pool(s: Seq<u8>, p: int, count: u16) -> Result<
    (Seq<ConstantView>, int),
    ClassError,
> {
    if count == 0 {
        Err(ClassError::BadConstantPoolCount)
    } else {
        spec_cp_entries(s, p, (count - 1) as nat)
    }
}

/// An entry read at `p` lies within the input, after `p`.
pub proof fn lemma_cp_entry_advances(s: Seq<u8>, p: int)
    requires
        0 <= p,
    ensures
        spec_cp_entry(s, p) matches Ok((_, q)) ==> p < q <= s.len(),
{
}

/// Reading `n` entries yields exactly `n` entries and stays within the input.
pub proof fn lemma_cp_entries_len(s: Seq<u8>, p: int, n: nat)
    requires
        0 <= p <= s.len(),
    ensures
        spec_cp_entries(s, p, n) matches Ok((es, q)) ==> es.len() == n && p <= q <= s.len(),
    decreases n,
{
    if n > 0 {
        lemma_cp_entry_advances(s, p);
        if let Ok((_, q)) = spec_cp_entry(s, p) {
            lemma_cp_entries_len(s, q, (n - 1) as nat);
        }
    }
}

/// The two bytes of `v`, high byte first.
pub open spec fn be16_bytes(v: u16) -> Seq<u8> {
    seq![(v / 0x100) as u8, (v % 0x100) as u8]
}

/// The bytes of a constant-pool entry of a kind that the parser reads: its tag, then
/// its big-endian indices, or for a `Utf8` entry its byte length and its text in
/// UTF-8. The kinds that the parser refuses have no bytes here.
pub open spec fn encode_cp_entry(e: ConstantView) -> Seq<u8> {
    match e {
        ConstantView::Utf8(len, text) => seq![1u8] + be16_bytes(len) + vstd::utf8::encode_utf8(text),
        ConstantView::String(i) => seq![8u8] + be16_bytes(i),
        ConstantView::Fieldref(a, b) => seq![9u8] + be16_bytes(a) + be16_bytes(b),
        ConstantView::Methodref(a, b) => seq![10u8] + be16_bytes(a) + be16_bytes(b),
        ConstantView::InterfaceMethodref(a, b) => seq![11u8] + be16_bytes(a) + be16_bytes(b),
        ConstantView::Class(i) => seq![7u8] + be16_bytes(i),
        ConstantView::NameAndType(a, b) => seq![12u8] + be16_bytes(a) + be16_bytes(b),
        _ => Seq::empty(),
    }
}

/// The bytes of a sequence of constant-pool entries, one after another.
pub open spec fn encode_cp_entries(es: Seq<ConstantView>) -> Seq<u8>
    decreases es.len(),
{
    if es.len() == 0 {
        Seq::empty()
    } else {
        encode_cp_entry(es[0]) + encode_cp_entries(es.drop_first())
    }
}

/// Two bytes read as a big-endian number are the bytes of that number.
pub(crate) proof fn lemma_be16_bytes(s: Seq<u8>, p: int)
    requires
        0 <= p,
        p + 2 <= s.len(),
    ensures
        s.subrange(p, p + 2) == be16_bytes(be_u16(s, p)),
{
    let v = s[p] as int * 0x100 + s[p + 1] as int;
    assert(v / 0x100 == s[p] as int);
    assert(v % 0x100 == s[p + 1] as int);
    assert(s.subrange(p, p + 2) =~= be16_bytes(be_u16(s, p)));
}

/// The bytes that an entry read at `p` spans are the bytes of that entry.
proof fn lemma_cp_entry_encoding(s: Seq<u8>, p: int)
    requires
        0 <= p,
    ensures
        spec_cp_entry(s, p) matches Ok((e, q)) ==> s.subrange(p, q) == encode_cp_entry(e),
{
    if let Ok((e, q)) = spec_cp_entry(s, p) {
        let tag = s[p];
        lemma_be16_bytes(s, p + 1);
        assert(s.subrange(p, p + 1) =~= seq![tag]);
        if tag == 1 {
            let len = be_u16(s, p + 1);
            let b = s.subrange(p + 3, p + 3 + len);
            vstd::utf8::decode_utf8_encode_utf8(b);
            assert(s.subrange(p, q) =~= s.subrange(p, p + 1) + s.subrange(p + 1, p + 3) + b);
        } else if tag == 9 || tag == 10 || tag == 11 || tag == 12 {
            lemma_be16_bytes(s, p + 3);
            assert(s.subrange(p, q) =~= s.subrange(p, p + 1) + s.subrange(p + 1, p + 3)
                + s.subrange(p + 3, p + 5));
        } else {
            assert(s.subrange(p, q) =~= s.subrange(p, p + 1) + s.subrange(p + 1, p + 3));
        }
    }
}

/// The bytes that entries read at `p` span are the bytes of those entries.
proof fn lemma_cp_entries_encoding(s: Seq<u8>, p: int, n: nat)
    requires
        0 <= p <= s.len(),
    ensures
        spec_cp_entries(s, p, n) matches Ok((es, q)) ==> s.subrange(p, q) == encode_cp_entries(es),
    decreases n,
{
    if n == 0 {
        assert(s.subrange(p, p) =~= Seq::<u8>::empty());
    } else if let Ok((e, q)) = spec_cp_entry(s, p) {
        lemma_cp_entry_encoding(s, p);
        lemma_cp_entry_advances(s, p);
        lemma_cp_entries_encoding(s, q, (n - 1) as nat);
        lemma_cp_entries_len(s, q, (n - 1) as nat);
        if let Ok((rest, r)) = spec_cp_entries(s, q, (n - 1) as nat) {
            let es = seq![e] + rest;
            assert(es[0] == e);
            assert(es.drop_first() =~= rest);
            assert(s.subrange(p, r) =~= s.subrange(p, q) + s.subrange(q, r));
        }
    }
}

/// The bytes that the constant-pool parser consumes are exactly the bytes of the
/// entries it returns, one after another; and it returns one entry fewer than the
/// count announces.
pub proof fn lemma_constant_pool_encoding(s: Seq<u8>, p: int, count: u16)
    requires
        0 <= p <= s.len(),
    ensures
        spec_constant_pool(s, p, count) matches Ok((es, q)) ==> {
            &&& s.subrange(p, q) == encode_cp_entries(es)
            &&& es.len() + 1 == count
        },
{
    if count > 0 {
        lemma_cp_entries_encoding(s, p, (count - 1) as nat);
        lemma_cp_entries_len(s, p, (count - 1) as nat);
    }
}

/// Whether the parser reads back `e` from its bytes: an entry of a kind that it takes,
/// and for a `Utf8` entry a byte length equal to the length of its text in UTF-8.
pub open spec fn cp_entry_parsable(e: ConstantView) -> bool {
    match e {
        ConstantView::Utf8(len, text) => vstd::utf8::encode_utf8(text).len() == len,
        ConstantView::String(_) => true,
        ConstantView::Fieldref(_, _) => true,
        ConstantView::Methodref(_, _) => true,
        ConstantView::InterfaceMethodref(_, _) => true,
        ConstantView::Class(_) => true,
        ConstantView::NameAndType(_, _) => true,
        _ => false,
    }
}

/// The bytes of a number read as a big-endian number give that number back.
pub(crate) proof fn lemma_be16_read(s: Seq<u8>, p: int, v: u16)
    requires
        0 <= p,
        p + 2 <= s.len(),
        s.subrange(p, p + 2) == be16_bytes(v),
    ensures
        be_u16(s, p) == v,
{
    assert(s[p] == s.subrange(p, p + 2)[0]);
    assert(s[p + 1] == s.subrange(p, p + 2)[1]);
    assert(s[p] as int == v / 0x100);
    assert(s[p + 1] as int == v % 0x100);
}

/// The bytes of an entry that the parser takes, wherever they stand, read back as
/// that entry, and the read ends right after them.
proof fn lemma_cp_entry_complete(s: Seq<u8>, p: int, e: ConstantView)
    requires
        cp_entry_parsable(e),
        0 <= p,
        p + encode_cp_entry(e).len() <= s.len(),
        s.subrange(p, p + encode_cp_entry(e).len()) == encode_cp_entry(e),
    ensures
        spec_cp_entry(s, p) == Ok::<(ConstantView, int), ClassError>(
            (e, p + encode_cp_entry(e).len()),
        ),
{
    let enc = encode_cp_entry(e);
    assert(s[p] == enc[0]);
    assert(s.subrange(p + 1, p + 3) =~= enc.subrange(1, 3));
    match e {
        ConstantView::Utf8(len, text) => {
            let b = vstd::utf8::encode_utf8(text);
            assert(enc.subrange(1, 3) =~= be16_bytes(len));
            lemma_be16_read(s, p + 1, len);
            assert(s.subrange(p + 3, p + 3 + len) =~= enc.subrange(3, 3 + len as int));
            assert(enc.subrange(3, 3 + len as int) =~= b);
            vstd::utf8::encode_utf8_valid_utf8(text);
            vstd::utf8::encode_utf8_decode_utf8(text);
        },
        ConstantView::String(i) => {
            assert(enc.subrange(1, 3) =~= be16_bytes(i));
            lemma_be16_read(s, p + 1, i);
        },
        ConstantView::Class(i) => {
            assert(enc.subrange(1, 3) =~= be16_bytes(i));
            lemma_be16_read(s, p + 1, i);
        },
        ConstantView::Fieldref(a, b) => {
            assert(enc.subrange(1, 3) =~= be16_bytes(a));
            assert(s.subrange(p + 3, p + 5) =~= enc.subrange(3, 5));
            assert(enc.subrange(3, 5) =~= be16_bytes(b));
            lemma_be16_read(s, p + 1, a);
            lemma_be16_read(s, p + 3, b);
        },
        ConstantView::Methodref(a, b) => {
            assert(enc.subrange(1, 3) =~= be16_bytes(a));
            assert(s.subrange(p + 3, p + 5) =~= enc.subrange(3, 5));
            assert(enc.subrange(3, 5) =~= be16_bytes(b));
            lemma_be16_read(s, p + 1, a);
            lemma_be16_read(s, p + 3, b);
        },
        ConstantView::InterfaceMethodref(a, b) => {
            assert(enc.subrange(1, 3) =~= be16_bytes(a));
            assert(s.subrange(p + 3, p + 5) =~= enc.subrange(3, 5));
            assert(enc.subrange(3, 5) =~= be16_bytes(b));
            lemma_be16_read(s, p + 1, a);
            lemma_be16_read(s, p + 3, b);
        },
        ConstantView::NameAndType(a, b) => {
            assert(enc.subrange(1, 3) =~= be16_bytes(a));
            assert(s.subrange(p + 3, p + 5) =~= enc.subrange(3, 5));
            assert(enc.subrange(3, 5) =~= be16_bytes(b));
            lemma_be16_read(s, p + 1, a);
            lemma_be16_read(s, p + 3, b);
        },
        _ => {},
    }
}

/// The bytes of a sequence of entries that the parser takes, wherever they stand,
/// read back as those entries.
proof fn lemma_cp_entries_complete(s: Seq<u8>, p: int, es: Seq<ConstantView>)
    requires
        forall|i: int| 0 <= i < es.len() ==> cp_entry_parsable(#[trigger] es[i]),
        0 <= p,
        p + encode_cp_entries(es).len() <= s.len(),
        s.subrange(p, p + encode_cp_entries(es).len()) == encode_cp_entries(es),
    ensures
        spec_cp_entries(s, p, es.len()) == Ok::<(Seq<ConstantView>, int), ClassError>(
            (es, p + encode_cp_entries(es).len()),
        ),
    decreases es.len(),
{
    if es.len() == 0 {
        assert(es =~= Seq::<ConstantView>::empty());
    } else {
        let head = encode_cp_entry(es[0]);
        let tail = encode_cp_entries(es.drop_first());
        let q = p + head.len();
        assert(s.subrange(p, q) =~= encode_cp_entries(es).subrange(0, head.len() as int));
        assert(encode_cp_entries(es).subrange(0, head.len() as int) =~= head);
        assert(s.subrange(q, q + tail.len()) =~= encode_cp_entries(es).subrange(
            head.len() as int,
            encode_cp_entries(es).len() as int,
        ));
        assert(encode_cp_entries(es).subrange(head.len() as int, encode_cp_entries(es).len() as int)
            =~= tail);
        assert(cp_entry_parsable(es[0]));
        lemma_cp_entry_complete(s, p, es[0]);
        assert forall|i: int| 0 <= i < es.drop_first().len() implies cp_entry_parsable(
            #[trigger] es.drop_first()[i],
        ) by {
            assert(es.drop_first()[i] == es[i + 1]);
        }
        lemma_cp_entries_complete(s, q, es.drop_first());
        assert(seq![es[0]] + es.drop_first() =~= es);
    }
}

/// The constant-pool parser takes every pool it could meet: for any entries of the
/// kinds that it reads (each `Utf8` entry with any text, the empty one among them,
/// and its byte length), their bytes, wherever they stand and whatever follows them,
/// with a count one more than their number, read back as those very entries, and the
/// read ends right after them.
pub proof fn lemma_constant_pool_complete(s: Seq<u8>, p: int, es: Seq<ConstantView>)
    requires
        forall|i: int| 0 <= i < es.len() ==> cp_entry_parsable(#[trigger] es[i]),
        es.len() < 0xFFFF,
        0 <= p,
        p + encode_cp_entries(es).len() <= s.len(),
        s.subrange(p, p + encode_cp_entries(es).len()) == encode_cp_entries(es),
    ensures
        spec_constant_pool(s, p, (es.len() + 1) as u16) == Ok::<(Seq<ConstantView>, int), ClassError>(
            (es, p + encode_cp_entries(es).len()),
        ),
{
    lemma_cp_entries_complete(s, p, es);
}

/// An entry that reads from `s` at `p` reads the same when more bytes follow `s`.
pub proof fn lemma_cp_entry_prefix(s: Seq<u8>, t: Seq<u8>, p: int)
    requires
        0 <= p,
        spec_cp_entry(s, p) is Ok,
    ensures
        spec_cp_entry(s + t, p) == spec_cp_entry(s, p),
{
    let st = s + t;
    assert(st[p] == s[p]);
    if u16_at(s, p + 1) is Some {
        assert(st[p + 1] == s[p + 1] && st[p + 2] == s[p + 2]);
    }
    if u16_at(s, p + 3) is Some {
        assert(st[p + 3] == s[p + 3] && st[p + 4] == s[p + 4]);
    }
    if let Some(len) = u16_at(s, p + 1) {
        if bytes_at(s, p + 3, len as int) is Some {
            assert(st.subrange(p + 3, p + 3 + len) =~= s.subrange(p + 3, p + 3 + len));
        }
    }
}

/// Entries that read from `s` at `p` read the same when more bytes follow `s`.
pub proof fn lemma_cp_entries_prefix(s: Seq<u8>, t: Seq<u8>, p: int, n: nat)
    requires
        0 <= p,
        spec_cp_entries(s, p, n) is Ok,
    ensures
        spec_cp_entries(s + t, p, n) == spec_cp_entries(s, p, n),
    decreases n,
{
    if n > 0 {
        lemma_cp_entry_prefix(s, t, p);
        lemma_cp_entry_advances(s, p);
        if let Ok((_, q)) = spec_cp_entry(s, p) {
            lemma_cp_entries_prefix(s, t, q, (n - 1) as nat);
        }
    }
}

/// Reads one constant-pool entry at `pos`.
fn read_cp_entry(bytes: &[u8], pos: usize) -> (r: Result<(ConstantPoolTags, usize), ClassError>)
    ensures
        match r {
            Ok((e, q)) => spec_cp_entry(bytes@, pos as int) == Ok::<(ConstantView, int), ClassError>(
                (e.deep_view(), q as int),
            ),
            Err(err) => spec_cp_entry(bytes@, pos as int) == Err::<(ConstantView, int), ClassError>(
                err,
            ),
        },
{
    assert(bytes@.len() == bytes.len());
    let tag = match read_be_u8(bytes, pos) {
        Some(t) => t,
        None => return Err(ClassError::UnexpectedEof),
    };
    let p1 = pos + 1;
    if tag == 1 {
        let length = match read_be_u16(bytes, p1) {
            Some(l) => l,
            None => return Err(ClassError::UnexpectedEof),
        };
        let p3 = p1 + 2;
        let raw = match copy_bytes(bytes, p3, length as usize) {
            Some(b) => b,
            None => return Err(ClassError::UnexpectedEof),
        };
        match string_from_utf8(raw) {
            Some(text) => Ok((ConstantPoolTags::Utf8(length, text), p3 + length as usize)),
            None => Err(ClassError::InvalidUtf8),
        }
    } else if tag == 8 {
        match read_be_u16(bytes, p1) {
            Some(i) => Ok((ConstantPoolTags::String(i), p1 + 2)),
            None => Err(ClassError::UnexpectedEof),
        }
    } else if tag == 9 || tag == 10 || tag == 11 {
        let class_index = match read_be_u16(bytes, p1) {
            Some(i) => i,
            None => return Err(ClassError::UnexpectedEof),
        };
        let name_and_type_index = match read_be_u16(bytes, p1 + 2) {
            Some(i) => i,
            None => return Err(ClassError::UnexpectedEof),
        };
        let entry = if tag == 9 {
            ConstantPoolTags::Fieldref(class_index, name_and_type_index)
        } else if tag == 10 {
            ConstantPoolTags::Methodref(class_index, name_and_type_index)
        } else {
            ConstantPoolTags::InterfaceMethodref(class_index, name_and_type_index)
        };
        Ok((entry, p1 + 4))
    } else if tag == 7 {
        match read_be_u16(bytes, p1) {
            Some(i) => Ok((ConstantPoolTags::Class(i), p1 + 2)),
            None => Err(ClassError::UnexpectedEof),
        }
    } else if tag == 12 {
        let name_index = match read_be_u16(bytes, p1) {
            Some(i) => i,
            None => return Err(ClassError::UnexpectedEof),
        };
        let descriptor_index = match read_be_u16(bytes, p1 + 2) {
            Some(i) => i,
            None => return Err(ClassError::UnexpectedEof),
        };
        Ok((ConstantPoolTags::NameAndType(name_index, descriptor_index), p1 + 4))
    } else {
        Err(ClassError::UnknownConstantTag(tag))
    }
}

/// Reads `n` constant-pool entries from `pos`.
pub(crate) fn read_cp_entries(bytes: &[u8], pos: usize, n: u16) -> (r: Result<
    (Vec<ConstantPoolTags>, usize),
    ClassError,
>)
    ensures
        match r {
            Ok((es, q)) => spec_cp_entries(bytes@, pos as int, n as nat) == Ok::<
                (Seq<ConstantView>, int),
                ClassError,
            >((es.deep_view(), q as int)),
            Err(err) => spec_cp_entries(bytes@, pos as int, n as nat) == Err::<
                (Seq<ConstantView>, int),
                ClassError,
            >(err),
        },
{
    let mut pool: Vec<ConstantPoolTags> = Vec::new();
    let mut p = pos;
    let mut i: u16 = 0;
    while i < n
        invariant
            i <= n,
            spec_cp_entries(bytes@, pos as int, n as nat) == (match spec_cp_entries(
                bytes@,
                p as int,
                (n - i) as nat,
            ) {
                Err(e) => Err(e),
                Ok((rest, r)) => Ok((pool.deep_view() + rest, r)),
            }),
        decreases n - i,
    {
        let ghost before = pool.deep_view();
        match read_cp_entry(bytes, p) {
            Err(e) => {
                return Err(e);
            },
            Ok((entry, q)) => {
                let ghost ev = entry.deep_view();
                pool.push(entry);
                assert(pool.deep_view() =~= before.push(ev));
                proof {
                    match spec_cp_entries(bytes@, q as int, (n - i - 1) as nat) {
                        Err(_) => {},
                        Ok((rest, _)) => {
                            assert(before + (seq![ev] + rest) =~= before.push(ev) + rest);
                        },
                    }
                }
                p = q;
                i = i + 1;
            },
        }
    }
    assert(pool.deep_view() + Seq::<ConstantView>::empty() =~= pool.deep_view());
    Ok((pool, p))
}

/// Reads the constant pool that `constant_pool_count` announces (one more than the
/// number of its entries) from the reader's position, and moves the reader past it;
/// refuses, and leaves the reader where it was, what `get_constant_pool` does not take:
/// a count of zero, an entry cut short, an unknown tag, or text that is not UTF-8.
pub fn try_get_constant_pool(constant_pool_count: u16, reader: &mut ByteReader) -> (r: Result<
    Vec<ConstantPoolTags>,
    ClassError,
>)
    ensures
        final(reader).data() == old(reader).data(),
        match r {
            Ok(pool) => spec_constant_pool(old(reader).data(), old(reader).pos(), constant_pool_count)
                == Ok::<(Seq<ConstantView>, int), ClassError>((pool.deep_view(), final(reader).pos())),
            Err(e) => spec_constant_pool(old(reader).data(), old(reader).pos(), constant_pool_count)
                == Err::<(Seq<ConstantView>, int), ClassError>(e) && final(reader).pos() == old(
                reader,
            ).pos(),
        },
        r matches Ok(pool) ==> pool@.len() + 1 == constant_pool_count && old(reader).pos()
            <= final(reader).pos() <= old(reader).data().len(),
{
    if constant_pool_count == 0 {
        return Err(ClassError::BadConstantPoolCount);
    }
    let start = reader.position();
    match read_cp_entries(reader.bytes().as_slice(), start, constant_pool_count - 1) {
        Ok((pool, q)) => {
            proof {
                if start as int <= reader.data().len() {
                    lemma_cp_entries_len(reader.data(), start as int, (constant_pool_count - 1) as nat);
                }
            }
            reader.set_position(q);
            Ok(pool)
        },
        Err(e) => Err(e),
    }
}

/// Reads the constant pool that `constant_pool_count` announces (one more than the
/// number of its entries) from the reader's position, and moves the reader past it.
/// The pool must be readable there: a count of at least one, entries with known tags,
/// UTF-8 text, and no entry cut short (see `try_get_constant_pool` for a check).
pub fn get_constant_pool(constant_pool_count: u16, reader: &mut ByteReader) -> (r: Vec<
    ConstantPoolTags,
>)
    requires
        spec_constant_pool(old(reader).data(), old(reader).pos(), constant_pool_count) is Ok,
    ensures
        final(reader).data() == old(reader).data(),
        spec_constant_pool(old(reader).data(), old(reader).pos(), constant_pool_count) == Ok::<
            (Seq<ConstantView>, int),
            ClassError,
        >((r.deep_view(), final(reader).pos())),
        r@.len() + 1 == constant_pool_count,
        old(reader).pos() <= final(reader).pos() <= old(reader).data().len(),
{
    match try_get_constant_pool(constant_pool_count, reader) {
        Ok(pool) => pool,
        Err(_) => Vec::new(),
    }
}


/// A copy of a constant-pool entry.
pub fn clone_constant(e: &ConstantPoolTags) -> (r: ConstantPoolTags)
    ensures
        r.deep_view() == e.deep_view(),
{
    match e {
        ConstantPoolTags::Class(a) => ConstantPoolTags::Class(*a),
        ConstantPoolTags::Fieldref(a, b) => ConstantPoolTags::Fieldref(*a, *b),
        ConstantPoolTags::Methodref(a, b) => ConstantPoolTags::Methodref(*a, *b),
        ConstantPoolTags::InterfaceMethodref(a, b) => ConstantPoolTags::InterfaceMethodref(*a, *b),
        ConstantPoolTags::String(a) => ConstantPoolTags::String(*a),
        ConstantPoolTags::Integer => ConstantPoolTags::Integer,
        ConstantPoolTags::Float => ConstantPoolTags::Float,
        ConstantPoolTags::Long => ConstantPoolTags::Long,
        ConstantPoolTags::Double => ConstantPoolTags::Double,
        ConstantPoolTags::NameAndType(a, b) => ConstantPoolTags::NameAndType(*a, *b),
        ConstantPoolTags::Utf8(n, s) => ConstantPoolTags::Utf8(*n, s.clone()),
        ConstantPoolTags::MethodHandle => ConstantPoolTags::MethodHandle,
        ConstantPoolTags::MethodType => ConstantPoolTags::MethodType,
        ConstantPoolTags::InvokeDynamic => ConstantPoolTags::InvokeDynamic,
    }
}

/// A copy of a constant pool.
pub fn clone_constants(v: &Vec<ConstantPoolTags>) -> (r: Vec<ConstantPoolTags>)
    ensures
        r.deep_view() == v.deep_view(),
{
    let mut out: Vec<ConstantPoolTags> = Vec::new();
    let mut i: usize = 0;
    while i < v.len()
        invariant
            i <= v@.len(),
            out.deep_view() =~= v.deep_view().take(i as int),
        decreases v@.len() - i,
    {
        let ghost before = out.deep_view();
        out.push(clone_constant(&v[i]));
        assert(out.deep_view() =~= before.push(v.deep_view()[i as int]));
        assert(v.deep_view().take(i + 1) =~= v.deep_view().take(i as int).push(
            v.deep_view()[i as int],
        ));
        i = i + 1;
    }
    assert(v.deep_view().take(v@.len() as int) =~= v.deep_view());
    out
}

impl Clone for ConstantPoolTags {
    /// A copy with the same value.
    fn clone(&self) -> (r: Self)
        ensures
            r.deep_view() == self.deep_view(),
    {
        clone_constant(self)
    }
}

} // verus!

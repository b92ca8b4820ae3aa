use vstd::prelude::*;
use crate::constpool::{ConstantPoolTags, ConstantView, cp_entry, be16_bytes, lemma_be16_bytes, lemma_be16_read};
use crate::error::ClassError;
use crate::reader::{u16_at, u32_at, be_u16, bytes_at, read_be_u16, read_be_u32, copy_bytes, text_is, ByteReader, lemma_u16_prefix, lemma_u32_prefix};

verus! {

/// An attribute of a class, a method or a `Code` attribute.
#[derive(Debug)]
pub struct Attribute {
    pub attribute_name_index: u16,
    pub attribute_length: u32,
    pub info: AttributeInfo,
}

/// The attributes that are understood.
#[derive(Debug)]
pub enum AttributeInfo {
    /// Table length, (start pc, line number) pairs.
    LineNumberTable(u16, Vec<(u16, u16)>),
    /// Max stack, max locals, code length, code, exception table length, the count of
    /// nested attributes as read, nested attributes.
    Code(u16, u16, u32, Vec<u8>, u16, u16, Vec<Attribute>),
    /// Index of the source file's name.
    SourceFile(u16),
}

/// What an attribute holds, as mathematical values.
pub struct AttributeView {
    pub attribute_name_index: u16,
    pub attribute_length: u32,
    pub info: AttributeInfoView,
}

/// What the body of an attribute holds, as mathematical values.
pub enum AttributeInfoView {
    LineNumberTable(u16, Seq<(u16, u16)>),
    Code(u16, u16, u32, Seq<u8>, u16, u16, Seq<AttributeView>),
    SourceFile(u16),
}

/// The value of an attribute.
pub open spec fn attribute_view(a: Attribute) -> AttributeView
    decreases a,
{
    AttributeView {
        attribute_name_index: a.attribute_name_index,
        attribute_length: a.attribute_length,
        info: attribute_info_view(a.info),
    }
}

/// The value of the body of an attribute.
pub open spec fn attribute_info_view(info: AttributeInfo) -> AttributeInfoView
    decreases info,
{
    match info {
        AttributeInfo::LineNumberTable(n, t) => AttributeInfoView::LineNumberTable(n, t@),
        AttributeInfo::Code(ms, ml, cl, code, et, ac, nested) => AttributeInfoView::Code(
            ms,
            ml,
            cl,
            code@,
            et,
            ac,
            attributes_view(nested@),
        ),
        AttributeInfo::SourceFile(i) => AttributeInfoView::SourceFile(i),
    }
}

/// The values of a sequence of attributes.
pub open spec fn attributes_view(s: Seq<Attribute>) -> Seq<AttributeView>
    decreases s,
{
    if s.len() == 0 {
        Seq::empty()
    } else {
        attributes_view(s.drop_last()).push(attribute_view(s.last()))
    }
}

/// A line-number table of `n` entries at `p`: (start pc, line number) pairs of
/// big-endian `u16`s, if the input holds them all.
pub open spec fn spec_line_numbers(s: Seq<u8>, p: int, n: nat) -> Option<Seq<(u16, u16)>> {
    if 0 <= p && p + 4 * n <= s.len() {
        Some(Seq::new(n, |i: int| (be_u16(s, p + 4 * i), be_u16(s, p + 4 * i + 2))))
    } else {
        None
    }
}

/// Builds the value of an attribute.
pub open spec fn mk_attribute(name_index: u16, length: u32, info: AttributeInfoView) -> AttributeView {
    AttributeView { attribute_name_index: name_index, attribute_length: length, info }
}

/// One attribute read at `p`: its value and the position after it. The name of the
/// attribute is looked up in `cp`; a `Code` attribute reads its nested attributes with
/// `count`, the count of the list that it belongs to.
pub open spec fn spec_attribute(s: Seq<u8>, p: int, count: u16, cp: Seq<ConstantView>) -> Result<
    (AttributeView, int),
    ClassError,
>
    decreases s.len() - p, 0int,
{
    match (u16_at(s, p), u32_at(s, p + 2)) {
        (Some(name_index), Some(length)) => {
            let q = p + 6;
            match cp_entry(cp, name_index as int) {
                None => Err(ClassError::BadConstantIndex(name_index)),
                Some(ConstantView::Utf8(_, name)) => if name == "LineNumberTable"@ {
                    match u16_at(s, q) {
                        None => Err(ClassError::UnexpectedEof),
                        Some(n) => match spec_line_numbers(s, q + 2, n as nat) {
                            None => Err(ClassError::UnexpectedEof),
                            Some(t) => Ok(
                                (
                                    mk_attribute(name_index, length, AttributeInfoView::LineNumberTable(n, t)),
                                    q + 2 + 4 * n,
                                ),
                            ),
                        },
                    }
                } else if name == "Code"@ {
                    match (u16_at(s, q), u16_at(s, q + 2), u32_at(s, q + 4)) {
                        (Some(max_stack), Some(max_locals), Some(code_length)) => match bytes_at(
                            s,
                            q + 8,
                            code_length as int,
                        ) {
                            None => Err(ClassError::UnexpectedEof),
                            Some(code) => {
                                let r = q + 8 + code_length;
                                match u16_at(s, r) {
                                    None => Err(ClassError::UnexpectedEof),
                                    Some(etl) => if etl != 0 {
                                        Err(ClassError::ExceptionTableUnsupported)
                                    } else {
                                        match u16_at(s, r + 2) {
                                            None => Err(ClassError::UnexpectedEof),
                                            Some(nested_count) => match spec_attribute_list(
                                                s,
                                                r + 4,
                                                count as nat,
                                                count,
                                                cp,
                                            ) {
                                                Err(e) => Err(e),
                                                Ok((nested, end)) => Ok(
                                                    (
                                                        mk_attribute(
                                                            name_index,
                                                            length,
                                                            AttributeInfoView::Code(
                                                                max_stack,
                                                                max_locals,
                                                                code_length,
                                                                code,
                                                                etl,
                                                                nested_count,
                                                                nested,
                                                            ),
                                                        ),
                                                        end,
                                                    ),
                                                ),
                                            },
                                        }
                                    },
                                }
                            },
                        },
                        _ => Err(ClassError::UnexpectedEof),
                    }
                } else if name == "SourceFile"@ {
                    match u16_at(s, q) {
                        None => Err(ClassError::UnexpectedEof),
                        Some(i) => Ok(
                            (mk_attribute(name_index, length, AttributeInfoView::SourceFile(i)), q + 2),
                        ),
                    }
                } else {
                    Err(ClassError::UnknownAttribute(name_index))
                },
                Some(_) => Err(ClassError::AttributeNameNotUtf8(name_index)),
            }
        },
        _ => Err(ClassError::UnexpectedEof),
    }
}

/// `n` attributes read one after another from `p`, each `Code` attribute among them
/// reading `count` nested ones: the attributes and the position after the last.
pub open spec fn spec_attribute_list(
    s: Seq<u8>,
    p: int,
    n: nat,
    count: u16,
    cp: Seq<ConstantView>,
) -> Result<(Seq<AttributeView>, int), ClassError>
    decreases s.len() - p, 1int,
{
    if n == 0 {
        Ok((Seq::empty(), p))
    } else {
        match spec_attribute(s, p, count, cp) {
            Err(e) => Err(e),
            Ok((a, q)) => if p < q <= s.len() {
                match spec_attribute_list(s, q, (n - 1) as nat, count, cp) {
                    Err(e) => Err(e),
                    Ok((rest, r)) => Ok((seq![a] + rest, r)),
                }
            } else {
                Err(ClassError::UnexpectedEof)
            },
        }
    }
}

/// What `get_atributes` reads: `count` attributes from `p`, with nested lists of
/// `Code` attributes read with the same `count`.
pub open spec fn spec_get_atributes(s: Seq<u8>, p: int, count: u16, cp: Seq<ConstantView>) -> Result<
    (Seq<AttributeView>, int),
    ClassError,
> {
    spec_attribute_list(s, p, count as nat, count, cp)
}

/// An attribute read at `p` ends after `p`, within the input; a list read at `p` ends
/// at or after `p`, within the input.
pub proof fn lemma_attribute_advances(s: Seq<u8>, p: int, count: u16, cp: Seq<ConstantView>)
    requires
        0 <= p,
    ensures
        spec_attribute(s, p, count, cp) matches Ok((_, q)) ==> p < q <= s.len(),
    decreases s.len() - p, 0int,
{
    if let (Some(name_index), Some(_)) = (u16_at(s, p), u32_at(s, p + 2)) {
        let q = p + 6;
        if let Some(ConstantView::Utf8(_, name)) = cp_entry(cp, name_index as int) {
            if name != "LineNumberTable"@ && name == "Code"@ {
                if let (Some(_), Some(_), Some(cl)) = (u16_at(s, q), u16_at(s, q + 2), u32_at(s, q + 4)) {
                    let r = q + 8 + cl;
                    if bytes_at(s, q + 8, cl as int) is Some && u16_at(s, r + 2) is Some {
                        lemma_attribute_list_advances(s, r + 4, count as nat, count, cp);
                    }
                }
            }
        }
    }
}

/// See `lemma_attribute_advances`.
pub proof fn lemma_attribute_list_advances(
    s: Seq<u8>,
    p: int,
    n: nat,
    count: u16,
    cp: Seq<ConstantView>,
)
    requires
        0 <= p <= s.len(),
    ensures
        spec_attribute_list(s, p, n, count, cp) matches Ok((_, q)) ==> p <= q <= s.len(),
    decreases s.len() - p, 1int,
{
    if n > 0 {
        lemma_attribute_advances(s, p, count, cp);
        if let Ok((_, q)) = spec_attribute(s, p, count, cp) {
            if p < q <= s.len() {
                lemma_attribute_list_advances(s, q, (n - 1) as nat, count, cp);
            }
        }
    }
}


/// An attribute that reads from `s` at `p` reads the same when more bytes follow `s`.
pub proof fn lemma_attribute_prefix(
    s: Seq<u8>,
    t: Seq<u8>,
    p: int,
    count: u16,
    cp: Seq<ConstantView>,
)
    requires
        0 <= p,
        spec_attribute(s, p, count, cp) is Ok,
    ensures
        spec_attribute(s + t, p, count, cp) == spec_attribute(s, p, count, cp),
    decreases s.len() - p, 0int,
{
    let st = s + t;
    lemma_u16_prefix(s, t, p);
    lemma_u32_prefix(s, t, p + 2);
    let name_index = u16_at(s, p).unwrap();
    let q = p + 6;
    if let Some(ConstantView::Utf8(_, name)) = cp_entry(cp, name_index as int) {
        if name == "LineNumberTable"@ {
            lemma_u16_prefix(s, t, q);
            let n = u16_at(s, q).unwrap();
            if let Some(tbl) = spec_line_numbers(s, q + 2, n as nat) {
                assert(spec_line_numbers(st, q + 2, n as nat)->Some_0 =~= tbl);
            }
        } else if name == "Code"@ {
            lemma_u16_prefix(s, t, q);
            lemma_u16_prefix(s, t, q + 2);
            lemma_u32_prefix(s, t, q + 4);
            let cl = u32_at(s, q + 4).unwrap();
            assert(st.subrange(q + 8, q + 8 + cl) =~= s.subrange(q + 8, q + 8 + cl));
            let r = q + 8 + cl;
            lemma_u16_prefix(s, t, r);
            if u16_at(s, r).unwrap() == 0 {
                lemma_u16_prefix(s, t, r + 2);
                lemma_attribute_list_prefix(s, t, r + 4, count as nat, count, cp);
            }
        } else if name == "SourceFile"@ {
            lemma_u16_prefix(s, t, q);
        }
    }
}

/// Attributes that read from `s` at `p` read the same when more bytes follow `s`.
pub proof fn lemma_attribute_list_prefix(
    s: Seq<u8>,
    t: Seq<u8>,
    p: int,
    n: nat,
    count: u16,
    cp: Seq<ConstantView>,
)
    requires
        0 <= p <= s.len(),
        spec_attribute_list(s, p, n, count, cp) is Ok,
    ensures
        spec_attribute_list(s + t, p, n, count, cp) == spec_attribute_list(s, p, n, count, cp),
    decreases s.len() - p, 1int,
{
    if n > 0 {
        lemma_attribute_prefix(s, t, p, count, cp);
        lemma_attribute_advances(s, p, count, cp);
        if let Ok((_, q)) = spec_attribute(s, p, count, cp) {
            lemma_attribute_list_prefix(s, t, q, (n - 1) as nat, count, cp);
        }
    }
}

/// Reading `n` attributes yields exactly `n` attributes.
pub proof fn lemma_attribute_list_len(s: Seq<u8>, p: int, n: nat, count: u16, cp: Seq<ConstantView>)
    ensures
        spec_attribute_list(s, p, n, count, cp) matches Ok((v, _)) ==> v.len() == n,
    decreases n,
{
    if n > 0 {
        if let Ok((_, q)) = spec_attribute(s, p, count, cp) {
            lemma_attribute_list_len(s, q, (n - 1) as nat, count, cp);
        }
    }
}

/// The bytes of a line-number table's entries: for each (start pc, line number) pair
/// in turn, the two numbers big-endian.
pub open spec fn encode_line_numbers(t: Seq<(u16, u16)>) -> Seq<u8>
    decreases t.len(),
{
    if t.len() == 0 {
        Seq::empty()
    } else {
        encode_line_numbers(t.drop_last()) + be16_bytes(t.last().0) + be16_bytes(t.last().1)
    }
}

/// A table of `n` entries takes four bytes per entry.
pub proof fn lemma_encode_line_numbers_len(t: Seq<(u16, u16)>)
    ensures
        encode_line_numbers(t).len() == 4 * t.len(),
    decreases t.len(),
{
    if t.len() > 0 {
        lemma_encode_line_numbers_len(t.drop_last());
    }
}

/// The bytes that a line-number table read at `p` spans are the big-endian bytes of
/// the pairs it returns, in order: nothing of either number is lost or moved.
pub proof fn lemma_line_numbers_encoding(s: Seq<u8>, p: int, n: nat)
    ensures
        spec_line_numbers(s, p, n) matches Some(t) ==> {
            &&& t.len() == n
            &&& s.subrange(p, p + 4 * n) == encode_line_numbers(t)
        },
    decreases n,
{
    if let Some(t) = spec_line_numbers(s, p, n) {
        if n == 0 {
            assert(s.subrange(p, p) =~= Seq::<u8>::empty());
        } else {
            let m = (n - 1) as nat;
            lemma_line_numbers_encoding(s, p, m);
            assert(spec_line_numbers(s, p, m)->Some_0 =~= t.drop_last());
            lemma_be16_bytes(s, p + 4 * m);
            lemma_be16_bytes(s, p + 4 * m + 2);
            assert(s.subrange(p, p + 4 * n) =~= s.subrange(p, p + 4 * m) + s.subrange(
                p + 4 * m,
                p + 4 * m + 2,
            ) + s.subrange(p + 4 * m + 2, p + 4 * n));
        }
    }
}

/// The big-endian bytes of any pairs, wherever they stand, read back as those pairs.
pub proof fn lemma_line_numbers_complete(s: Seq<u8>, p: int, t: Seq<(u16, u16)>)
    requires
        0 <= p,
        p + 4 * t.len() <= s.len(),
        s.subrange(p, p + 4 * t.len()) == encode_line_numbers(t),
    ensures
        spec_line_numbers(s, p, t.len()) == Some(t),
    decreases t.len(),
{
    if t.len() > 0 {
        let m: int = t.len() - 1;
        let u = t.drop_last();
        lemma_encode_line_numbers_len(u);
        assert(s.subrange(p, p + 4 * m) =~= encode_line_numbers(t).subrange(0, 4 * m));
        assert(encode_line_numbers(t).subrange(0, 4 * m) =~= encode_line_numbers(u));
        lemma_line_numbers_complete(s, p, u);
        let enc = encode_line_numbers(t);
        assert(enc == encode_line_numbers(u) + be16_bytes(t.last().0) + be16_bytes(t.last().1));
        assert(s.subrange(p + 4 * m, p + 4 * m + 2) =~= enc.subrange(4 * m, 4 * m + 2));
        assert(enc.subrange(4 * m, 4 * m + 2) =~= be16_bytes(t.last().0));
        assert(s.subrange(p + 4 * m + 2, p + 4 * m + 4) =~= enc.subrange(4 * m + 2, 4 * m + 4));
        assert(enc.subrange(4 * m + 2, 4 * m + 4) =~= be16_bytes(t.last().1));
        lemma_be16_read(s, p + 4 * m, t.last().0);
        lemma_be16_read(s, p + 4 * m + 2, t.last().1);
        let r = spec_line_numbers(s, p, t.len())->Some_0;
        assert(spec_line_numbers(s, p, u.len())->Some_0 =~= r.drop_last());
        assert(r.drop_last() == u);
        assert forall|i: int| 0 <= i < t.len() implies r[i] == t[i] by {
            if i < m {
                assert(r[i] == r.drop_last()[i]);
            } else {
                assert(r[i] == (be_u16(s, p + 4 * i), be_u16(s, p + 4 * i + 2)));
            }
        }
        assert(r =~= t);
    }
}

/// A `LineNumberTable` attribute read at `p` holds the table length read right after
/// its six-byte header, and its pairs are exactly the big-endian numbers that follow:
/// the bytes after the length are the encoding of the returned pairs.
pub proof fn lemma_line_number_attribute(s: Seq<u8>, p: int, count: u16, cp: Seq<ConstantView>)
    requires
        0 <= p,
    ensures
        spec_attribute(s, p, count, cp) matches Ok((a, q)) ==> (a.info matches AttributeInfoView::LineNumberTable(
            n,
            t,
        ) ==> {
            &&& u16_at(s, p + 6) == Some(n)
            &&& t.len() == n
            &&& q == p + 8 + 4 * n
            &&& s.subrange(p + 8, q) == encode_line_numbers(t)
        }),
{
    if let (Some(_), Some(_)) = (u16_at(s, p), u32_at(s, p + 2)) {
        if let Some(n) = u16_at(s, p + 6) {
            lemma_line_numbers_encoding(s, p + 8, n as nat);
        }
    }
}

/// Reads a line-number table of `n` entries at `pos`.
fn read_line_numbers(bytes: &[u8], pos: usize, n: u16) -> (r: Option<Vec<(u16, u16)>>)
    requires
        pos <= bytes@.len(),
    ensures
        match r {
            Some(t) => spec_line_numbers(bytes@, pos as int, n as nat) == Some(t@),
            None => spec_line_numbers(bytes@, pos as int, n as nat) is None,
        },
{
    let len = bytes.len();
    let mut table: Vec<(u16, u16)> = Vec::new();
    let mut p = pos;
    let mut i: u16 = 0;
    while i < n
        invariant
            len == bytes@.len(),
            i <= n,
            p == pos + 4 * i,
            p <= len,
            table@ =~= Seq::new(
                i as nat,
                |k: int| (be_u16(bytes@, pos + 4 * k), be_u16(bytes@, pos + 4 * k + 2)),
            ),
        decreases n - i,
    {
        let start_pc = match read_be_u16(bytes, p) {
            Some(v) => v,
            None => return None,
        };
        let line = match read_be_u16(bytes, p + 2) {
            Some(v) => v,
            None => return None,
        };
        table.push((start_pc, line));
        p = p + 4;
        i = i + 1;
    }
    Some(table)
}

/// Reads one attribute at `pos`, looking its name up in `cp`; a `Code` attribute reads
/// `count` nested attributes.
fn read_attribute(bytes: &[u8], pos: usize, count: u16, cp: &Vec<ConstantPoolTags>) -> (r: Result<
    (Attribute, usize),
    ClassError,
>)
    requires
        pos <= bytes@.len(),
    ensures
        match r {
            Ok((a, q)) => spec_attribute(bytes@, pos as int, count, cp.deep_view()) == Ok::<
                (AttributeView, int),
                ClassError,
            >((attribute_view(a), q as int)),
            Err(e) => spec_attribute(bytes@, pos as int, count, cp.deep_view()) == Err::<
                (AttributeView, int),
                ClassError,
            >(e),
        },
    decreases bytes@.len() - pos, 0int,
{
    assert(bytes@.len() == bytes.len());
    let attribute_name_index = match read_be_u16(bytes, pos) {
        Some(v) => v,
        None => return Err(ClassError::UnexpectedEof),
    };
    let attribute_length = match read_be_u32(bytes, pos + 2) {
        Some(v) => v,
        None => return Err(ClassError::UnexpectedEof),
    };
    let q = pos + 6;
    if attribute_name_index == 0 || attribute_name_index as usize > cp.len() {
        return Err(ClassError::BadConstantIndex(attribute_name_index));
    }
    let entry = &cp[attribute_name_index as usize - 1];
    assert(cp.deep_view()[attribute_name_index - 1] == entry.deep_view());
    match entry {
        ConstantPoolTags::Utf8(_, name) => {
            if text_is(name.as_str(), "LineNumberTable") {
                let n = match read_be_u16(bytes, q) {
                    Some(v) => v,
                    None => return Err(ClassError::UnexpectedEof),
                };
                match read_line_numbers(bytes, q + 2, n) {
                    None => Err(ClassError::UnexpectedEof),
                    Some(table) => Ok(
                        (
                            Attribute {
                                attribute_name_index,
                                attribute_length,
                                info: AttributeInfo::LineNumberTable(n, table),
                            },
                            q + 2 + 4 * (n as usize),
                        ),
                    ),
                }
            } else if text_is(name.as_str(), "Code") {
                let max_stack = match read_be_u16(bytes, q) {
                    Some(v) => v,
                    None => return Err(ClassError::UnexpectedEof),
                };
                let max_locals = match read_be_u16(bytes, q + 2) {
                    Some(v) => v,
                    None => return Err(ClassError::UnexpectedEof),
                };
                let code_length = match read_be_u32(bytes, q + 4) {
                    Some(v) => v,
                    None => return Err(ClassError::UnexpectedEof),
                };
                let code = match copy_bytes(bytes, q + 8, code_length as usize) {
                    Some(c) => c,
                    None => return Err(ClassError::UnexpectedEof),
                };
                let r = q + 8 + code_length as usize;
                let exception_table_length = match read_be_u16(bytes, r) {
                    Some(v) => v,
                    None => return Err(ClassError::UnexpectedEof),
                };
                if exception_table_length != 0 {
                    return Err(ClassError::ExceptionTableUnsupported);
                }
                let nested_count = match read_be_u16(bytes, r + 2) {
                    Some(v) => v,
                    None => return Err(ClassError::UnexpectedEof),
                };
                let (nested, end) = match read_attribute_list(bytes, r + 4, count, count, cp) {
                    Ok(res) => res,
                    Err(e) => return Err(e),
                };
                Ok(
                    (
                        Attribute {
                            attribute_name_index,
                            attribute_length,
                            info: AttributeInfo::Code(
                                max_stack,
                                max_locals,
                                code_length,
                                code,
                                exception_table_length,
                                nested_count,
                                nested,
                            ),
                        },
                        end,
                    ),
                )
            } else if text_is(name.as_str(), "SourceFile") {
                match read_be_u16(bytes, q) {
                    None => Err(ClassError::UnexpectedEof),
                    Some(i) => Ok(
                        (
                            Attribute {
                                attribute_name_index,
                                attribute_length,
                                info: AttributeInfo::SourceFile(i),
                            },
                            q + 2,
                        ),
                    ),
                }
            } else {
                Err(ClassError::UnknownAttribute(attribute_name_index))
            }
        },
        _ => Err(ClassError::AttributeNameNotUtf8(attribute_name_index)),
    }
}

/// Reads `n` attributes one after another from `pos`; each `Code` attribute among them
/// reads `count` nested ones.
fn read_attribute_list(
    bytes: &[u8],
    pos: usize,
    n: u16,
    count: u16,
    cp: &Vec<ConstantPoolTags>,
) -> (r: Result<(Vec<Attribute>, usize), ClassError>)
    requires
        pos <= bytes@.len(),
    ensures
        match r {
            Ok((v, q)) => spec_attribute_list(bytes@, pos as int, n as nat, count, cp.deep_view())
                == Ok::<(Seq<AttributeView>, int), ClassError>((attributes_view(v@), q as int)),
            Err(e) => spec_attribute_list(bytes@, pos as int, n as nat, count, cp.deep_view())
                == Err::<(Seq<AttributeView>, int), ClassError>(e),
        },
    decreases bytes@.len() - pos, 1int,
{
    let ghost s = bytes@;
    let ghost cpv = cp.deep_view();
    let mut list: Vec<Attribute> = Vec::new();
    let mut p = pos;
    let mut i: u16 = 0;
    while i < n
        invariant
            i <= n,
            pos <= p <= s.len(),
            s == bytes@,
            cpv == cp.deep_view(),
            spec_attribute_list(s, pos as int, n as nat, count, cpv) == (match spec_attribute_list(
                s,
                p as int,
                (n - i) as nat,
                count,
                cpv,
            ) {
                Err(e) => Err(e),
                Ok((rest, r)) => Ok((attributes_view(list@) + rest, r)),
            }),
        decreases n - i,
    {
        match read_attribute(bytes, p, count, cp) {
            Err(e) => {
                return Err(e);
            },
            Ok((a, q)) => {
                proof {
                    lemma_attribute_advances(s, p as int, count, cpv);
                }
                let ghost before = list@;
                let ghost av = attribute_view(a);
                list.push(a);
                assert(list@.drop_last() =~= before);
                assert(attributes_view(list@) == attributes_view(before).push(av));
                proof {
                    match spec_attribute_list(s, q as int, (n - i - 1) as nat, count, cpv) {
                        Err(_) => {},
                        Ok((rest, _)) => {
                            assert(attributes_view(before) + (seq![av] + rest) =~= attributes_view(
                                before,
                            ).push(av) + rest);
                        },
                    }
                }
                p = q;
                i = i + 1;
            },
        }
    }
    assert(attributes_view(list@) + Seq::<AttributeView>::empty() =~= attributes_view(list@));
    Ok((list, p))
}

/// Reads `attributes_count` attributes from the reader's position, looking their names
/// up in `constant_pool`, and moves the reader past them. A `Code` attribute reads its
/// nested attributes with the same `attributes_count`. Refuses, and leaves the reader
/// where it was, what `get_atributes` does not take: an attribute cut short, a name
/// index that names no `Utf8` constant, an unknown name, or an exception table.
pub fn try_get_atributes(
    attributes_count: u16,
    reader: &mut ByteReader,
    constant_pool: &Vec<ConstantPoolTags>,
) -> (r: Result<Vec<Attribute>, ClassError>)
    ensures
        final(reader).data() == old(reader).data(),
        match r {
            Ok(v) => spec_get_atributes(
                old(reader).data(),
                old(reader).pos(),
                attributes_count,
                constant_pool.deep_view(),
            ) == Ok::<(Seq<AttributeView>, int), ClassError>(
                (attributes_view(v@), final(reader).pos()),
            ),
            Err(e) => spec_get_atributes(
                old(reader).data(),
                old(reader).pos(),
                attributes_count,
                constant_pool.deep_view(),
            ) == Err::<(Seq<AttributeView>, int), ClassError>(e) && final(reader).pos() == old(
                reader,
            ).pos(),
        },
        r is Ok ==> old(reader).pos() <= final(reader).pos() <= old(reader).data().len(),
{
    let start = reader.position();
    match read_attribute_list(
        reader.bytes().as_slice(),
        start,
        attributes_count,
        attributes_count,
        constant_pool,
    ) {
        Ok((list, q)) => {
            proof {
                lemma_attribute_list_advances(
                    reader.data(),
                    start as int,
                    attributes_count as nat,
                    attributes_count,
                    constant_pool.deep_view(),
                );
            }
            reader.set_position(q);
            Ok(list)
        },
        Err(e) => Err(e),
    }
}

/// Reads `attributes_count` attributes from the reader's position, looking their names
/// up in `constant_pool`, and moves the reader past them. A `Code` attribute reads its
/// nested attributes with the same `attributes_count`. The attributes must be readable
/// there: none cut short, each named by a `Utf8` constant that is `LineNumberTable`,
/// `Code` or `SourceFile`, and no exception table (see `try_get_atributes` for a check).
pub fn get_atributes(
    attributes_count: u16,
    reader: &mut ByteReader,
    constant_pool: &Vec<ConstantPoolTags>,
) -> (r: Vec<Attribute>)
    requires
        spec_get_atributes(
            old(reader).data(),
            old(reader).pos(),
            attributes_count,
            constant_pool.deep_view(),
        ) is Ok,
    ensures
        final(reader).data() == old(reader).data(),
        spec_get_atributes(
            old(reader).data(),
            old(reader).pos(),
            attributes_count,
            constant_pool.deep_view(),
        ) == Ok::<(Seq<AttributeView>, int), ClassError>((attributes_view(r@), final(reader).pos())),
        old(reader).pos() <= final(reader).pos() <= old(reader).data().len(),
{
    match try_get_atributes(attributes_count, reader, constant_pool) {
        Ok(list) => list,
        Err(_) => Vec::new(),
    }
}


/// A copy of the body of an attribute, nested attributes included.
fn clone_info(info: &AttributeInfo) -> (r: AttributeInfo)
    ensures
        attribute_info_view(r) == attribute_info_view(*info),
    decreases info,
{
    match info {
        AttributeInfo::LineNumberTable(n, t) => {
            let mut table: Vec<(u16, u16)> = Vec::new();
            let mut i: usize = 0;
            while i < t.len()
                invariant
                    i <= t@.len(),
                    table@ =~= t@.take(i as int),
                decreases t@.len() - i,
            {
                table.push(t[i]);
                assert(t@.take(i + 1) =~= t@.take(i as int).push(t@[i as int]));
                i = i + 1;
            }
            assert(t@.take(t@.len() as int) =~= t@);
            AttributeInfo::LineNumberTable(*n, table)
        },
        AttributeInfo::Code(ms, ml, cl, code, et, ac, nested) => {
            let code2 = match copy_bytes(code.as_slice(), 0, code.len()) {
                Some(c) => c,
                None => Vec::new(),
            };
            assert(code2@ =~= code@);
            let nested2 = clone_attributes(nested);
            AttributeInfo::Code(*ms, *ml, *cl, code2, *et, *ac, nested2)
        },
        AttributeInfo::SourceFile(i) => AttributeInfo::SourceFile(*i),
    }
}

/// A copy of an attribute, nested attributes included.
pub fn clone_attribute(a: &Attribute) -> (r: Attribute)
    ensures
        attribute_view(r) == attribute_view(*a),
    decreases a,
{
    Attribute {
        attribute_name_index: a.attribute_name_index,
        attribute_length: a.attribute_length,
        info: clone_info(&a.info),
    }
}

/// A copy of a list of attributes, nested attributes included.
pub fn clone_attributes(v: &Vec<Attribute>) -> (r: Vec<Attribute>)
    ensures
        attributes_view(r@) == attributes_view(v@),
    decreases v,
{
    let mut out: Vec<Attribute> = Vec::new();
    let mut i: usize = 0;
    while i < v.len()
        invariant
            i <= v@.len(),
            attributes_view(out@) == attributes_view(v@.take(i as int)),
        decreases v@.len() - i,
    {
        assert(decreases_to!(v => v@[i as int]));
        let a = clone_attribute(&v[i]);
        let ghost before = out@;
        out.push(a);
        assert(out@.drop_last() =~= before);
        assert(v@.take(i + 1).drop_last() =~= v@.take(i as int));
        i = i + 1;
    }
    assert(v@.take(v@.len() as int) =~= v@);
    out
}


impl Clone for Attribute {
    /// A copy with the same value, nested attributes included.
    fn clone(&self) -> (r: Self)
        ensures
            attribute_view(r) == attribute_view(*self),
    {
        clone_attribute(self)
    }
}

impl Clone for AttributeInfo {
    /// A copy with the same value, nested attributes included.
    fn clone(&self) -> (r: Self)
        ensures
            attribute_info_view(r) == attribute_info_view(*self),
    {
        clone_info(self)
    }
}

} // verus!

use rjvm::attributes::{get_atributes, try_get_atributes, AttributeInfo};
use rjvm::class::{load_class, load_classes, try_load_class, try_load_classes};
use rjvm::constpool::{get_constant_pool, try_get_constant_pool, ConstantPoolTags};
use rjvm::error::ClassError;
use rjvm::reader::{copy_bytes, text_is, ByteReader};

fn u16be(v: u16) -> Vec<u8> {
    v.to_be_bytes().to_vec()
}

fn u32be(v: u32) -> Vec<u8> {
    v.to_be_bytes().to_vec()
}

fn utf8(s: &str) -> Vec<u8> {
    let mut out = vec![1u8];
    out.extend(u16be(s.len() as u16));
    out.extend(s.as_bytes());
    out
}

fn entry2(tag: u8, a: u16) -> Vec<u8> {
    let mut out = vec![tag];
    out.extend(u16be(a));
    out
}

fn entry4(tag: u8, a: u16, b: u16) -> Vec<u8> {
    let mut out = vec![tag];
    out.extend(u16be(a));
    out.extend(u16be(b));
    out
}

/// The constant pool of the sample class, entry by entry.
fn sample_pool() -> Vec<Vec<u8>> {
    vec![
        utf8("Hello"),                    // 1
        entry2(7, 1),                     // 2 Class Hello
        utf8("java/lang/Object"),         // 3
        entry2(7, 3),                     // 4 Class Object
        utf8("<init>"),                   // 5
        utf8("()V"),                      // 6
        entry4(12, 5, 6),                 // 7 NameAndType
        entry4(10, 4, 7),                 // 8 Methodref Object.<init>
        utf8("Code"),                     // 9
        utf8("main"),                     // 10
        utf8("([Ljava/lang/String;)V"),   // 11
        utf8("java/lang/System"),         // 12
        entry2(7, 12),                    // 13
        utf8("out"),                      // 14
        utf8("Ljava/io/PrintStream;"),    // 15
        entry4(12, 14, 15),               // 16
        entry4(9, 13, 16),                // 17 Fieldref System.out
        utf8("Hi"),                       // 18
        entry2(8, 18),                    // 19 String "Hi"
        utf8("java/io/PrintStream"),      // 20
        entry2(7, 20),                    // 21
        utf8("println"),                  // 22
        utf8("(Ljava/lang/String;)V"),    // 23
        entry4(12, 22, 23),               // 24
        entry4(10, 21, 24),               // 25 Methodref PrintStream.println
        utf8("SourceFile"),               // 26
        utf8("Hello.java"),               // 27
        utf8("LineNumberTable"),          // 28
    ]
}

fn line_number_table(pairs: &[(u16, u16)]) -> Vec<u8> {
    let mut body = u16be(pairs.len() as u16);
    for (a, b) in pairs {
        body.extend(u16be(*a));
        body.extend(u16be(*b));
    }
    let mut out = u16be(28);
    out.extend(u32be(body.len() as u32));
    out.extend(body);
    out
}

fn code_attribute(code: &[u8], nested: &[Vec<u8>]) -> Vec<u8> {
    let mut body = u16be(2);
    body.extend(u16be(1));
    body.extend(u32be(code.len() as u32));
    body.extend(code);
    body.extend(u16be(0));
    body.extend(u16be(nested.len() as u16));
    for n in nested {
        body.extend(n);
    }
    let mut out = u16be(9);
    out.extend(u32be(body.len() as u32));
    out.extend(body);
    out
}

fn method(name: u16, desc: u16, attrs: &[Vec<u8>]) -> Vec<u8> {
    let mut out = u16be(1);
    out.extend(u16be(name));
    out.extend(u16be(desc));
    out.extend(u16be(attrs.len() as u16));
    for a in attrs {
        out.extend(a);
    }
    out
}

fn class_bytes(pool: &[Vec<u8>], methods: &[Vec<u8>], class_attrs: &[Vec<u8>]) -> Vec<u8> {
    let mut out = u32be(0xCAFEBABE);
    out.extend(u16be(3)); // minor
    out.extend(u16be(52)); // major
    out.extend(u16be(pool.len() as u16 + 1));
    for e in pool {
        out.extend(e);
    }
    out.extend(u16be(0x21)); // access flags
    out.extend(u16be(2)); // this class
    out.extend(u16be(4)); // super class
    out.extend(u16be(0)); // interfaces
    out.extend(u16be(0)); // fields
    out.extend(u16be(methods.len() as u16));
    for m in methods {
        out.extend(m);
    }
    out.extend(u16be(class_attrs.len() as u16));
    for a in class_attrs {
        out.extend(a);
    }
    out
}

fn source_file() -> Vec<u8> {
    let mut out = u16be(26);
    out.extend(u32be(2));
    out.extend(u16be(27));
    out
}

fn sample_class() -> Vec<u8> {
    let init = method(
        5,
        6,
        &[code_attribute(&[42, 183, 0, 8, 177], &[line_number_table(&[(0, 1)])])],
    );
    let main = method(
        10,
        11,
        &[code_attribute(&[178, 0, 17, 18, 19, 182, 0, 25, 177], &[line_number_table(&[(0, 3)])])],
    );
    class_bytes(&sample_pool(), &[init, main], &[source_file()])
}

fn pool_bytes(entries: &[Vec<u8>]) -> Vec<u8> {
    let mut out = vec![];
    for e in entries {
        out.extend(e);
    }
    out
}

#[test]
fn constant_pool_reads_each_kind_of_entry() {
    let bytes = pool_bytes(&[
        utf8("Hi"),
        entry2(8, 0x0102),
        entry4(9, 1, 2),
        entry4(10, 3, 4),
        entry4(11, 5, 6),
        entry2(7, 7),
        entry4(12, 8, 9),
    ]);
    let len = bytes.len();
    let mut reader = ByteReader::new(bytes);
    let pool = get_constant_pool(8, &mut reader);
    assert_eq!(pool.len(), 7);
    assert_eq!(reader.position(), len);
    assert!(matches!(&pool[0], ConstantPoolTags::Utf8(2, s) if s == "Hi"));
    assert!(matches!(pool[1], ConstantPoolTags::String(258)));
    assert!(matches!(pool[2], ConstantPoolTags::Fieldref(1, 2)));
    assert!(matches!(pool[3], ConstantPoolTags::Methodref(3, 4)));
    assert!(matches!(pool[4], ConstantPoolTags::InterfaceMethodref(5, 6)));
    assert!(matches!(pool[5], ConstantPoolTags::Class(7)));
    assert!(matches!(pool[6], ConstantPoolTags::NameAndType(8, 9)));
}

#[test]
fn constant_pool_count_one_is_empty() {
    let mut reader = ByteReader::new(vec![1, 2, 3]);
    let pool = get_constant_pool(1, &mut reader);
    assert!(pool.is_empty());
    assert_eq!(reader.position(), 0);
}

#[test]
fn constant_pool_count_zero_is_refused() {
    let mut reader = ByteReader::new(vec![]);
    assert_eq!(try_get_constant_pool(0, &mut reader).unwrap_err(), ClassError::BadConstantPoolCount);
}

#[test]
fn constant_pool_unknown_tag_leaves_reader() {
    let mut bytes = entry2(7, 1);
    bytes.extend(vec![3u8, 0, 0, 0, 1]); // Integer: not implemented
    let mut reader = ByteReader::new(bytes);
    assert_eq!(try_get_constant_pool(3, &mut reader).unwrap_err(), ClassError::UnknownConstantTag(3));
    assert_eq!(reader.position(), 0);
}

#[test]
fn constant_pool_invalid_utf8() {
    let bytes = vec![1u8, 0, 2, 0xff, 0xfe];
    let mut reader = ByteReader::new(bytes);
    assert_eq!(try_get_constant_pool(2, &mut reader).unwrap_err(), ClassError::InvalidUtf8);
}

#[test]
fn constant_pool_truncated() {
    let bytes = vec![1u8, 0, 5, b'a', b'b'];
    let mut reader = ByteReader::new(bytes);
    assert_eq!(try_get_constant_pool(2, &mut reader).unwrap_err(), ClassError::UnexpectedEof);
    let mut reader = ByteReader::new(vec![10u8, 0, 1, 0]);
    assert_eq!(try_get_constant_pool(2, &mut reader).unwrap_err(), ClassError::UnexpectedEof);
    let mut reader = ByteReader::new(vec![7u8, 0, 1]);
    assert_eq!(try_get_constant_pool(3, &mut reader).unwrap_err(), ClassError::UnexpectedEof);
}

fn parsed_sample_pool() -> Vec<ConstantPoolTags> {
    let bytes = pool_bytes(&sample_pool());
    let mut reader = ByteReader::new(bytes);
    get_constant_pool(sample_pool().len() as u16 + 1, &mut reader)
}

#[test]
fn attributes_source_file_and_line_numbers() {
    let cp = parsed_sample_pool();
    let mut bytes = source_file();
    bytes.extend(line_number_table(&[(0, 7), (4, 0x0109)]));
    let len = bytes.len();
    let mut reader = ByteReader::new(bytes);
    let attrs = get_atributes(2, &mut reader, &cp);
    assert_eq!(reader.position(), len);
    assert_eq!(attrs.len(), 2);
    assert_eq!(attrs[0].attribute_name_index, 26);
    assert_eq!(attrs[0].attribute_length, 2);
    assert!(matches!(attrs[0].info, AttributeInfo::SourceFile(27)));
    match &attrs[1].info {
        AttributeInfo::LineNumberTable(n, t) => {
            assert_eq!(*n, 2);
            assert_eq!(t, &vec![(0, 7), (4, 265)]);
        }
        _ => panic!("expected a line number table"),
    }
}

#[test]
fn attributes_code_reads_nested_with_outer_count() {
    let cp = parsed_sample_pool();
    // The nested list announces one attribute, but the parser reads as many nested
    // attributes as the enclosing list has: here two.
    let mut bytes = code_attribute(&[3, 177], &[line_number_table(&[(0, 1)])]);
    bytes.extend(source_file());
    bytes.extend(source_file());
    let len = bytes.len();
    let mut reader = ByteReader::new(bytes);
    let attrs = get_atributes(2, &mut reader, &cp);
    assert_eq!(reader.position(), len);
    assert_eq!(attrs.len(), 2);
    match &attrs[0].info {
        AttributeInfo::Code(max_stack, max_locals, code_length, code, etl, count, nested) => {
            assert_eq!((*max_stack, *max_locals, *code_length, *etl, *count), (2, 1, 2, 0, 1));
            assert_eq!(code, &vec![3u8, 177]);
            assert_eq!(nested.len(), 2);
            assert!(matches!(nested[0].info, AttributeInfo::LineNumberTable(1, _)));
            assert!(matches!(nested[1].info, AttributeInfo::SourceFile(27)));
        }
        _ => panic!("expected code"),
    }
    assert!(matches!(attrs[1].info, AttributeInfo::SourceFile(27)));
}

#[test]
fn attributes_errors() {
    let cp = parsed_sample_pool();
    // exception table
    let mut body = u16be(1);
    body.extend(u16be(1));
    body.extend(u32be(1));
    body.push(177);
    body.extend(u16be(1));
    let mut bytes = u16be(9);
    bytes.extend(u32be(body.len() as u32));
    bytes.extend(body);
    let mut reader = ByteReader::new(bytes);
    assert_eq!(try_get_atributes(1, &mut reader, &cp).unwrap_err(), ClassError::ExceptionTableUnsupported);
    assert_eq!(reader.position(), 0);
    // unknown attribute name ("main")
    let mut bytes = u16be(10);
    bytes.extend(u32be(0));
    let mut reader = ByteReader::new(bytes);
    assert_eq!(try_get_atributes(1, &mut reader, &cp).unwrap_err(), ClassError::UnknownAttribute(10));
    // name entry that is not Utf8
    let mut bytes = u16be(2);
    bytes.extend(u32be(0));
    let mut reader = ByteReader::new(bytes);
    assert_eq!(try_get_atributes(1, &mut reader, &cp).unwrap_err(), ClassError::AttributeNameNotUtf8(2));
    // index zero and past the end
    let mut bytes = u16be(0);
    bytes.extend(u32be(0));
    let mut reader = ByteReader::new(bytes);
    assert_eq!(try_get_atributes(1, &mut reader, &cp).unwrap_err(), ClassError::BadConstantIndex(0));
    let mut bytes = u16be(99);
    bytes.extend(u32be(0));
    let mut reader = ByteReader::new(bytes);
    assert_eq!(try_get_atributes(1, &mut reader, &cp).unwrap_err(), ClassError::BadConstantIndex(99));
    // truncated
    let mut reader = ByteReader::new(vec![0, 26, 0, 0]);
    assert_eq!(try_get_atributes(1, &mut reader, &cp).unwrap_err(), ClassError::UnexpectedEof);
}

#[test]
fn load_sample_class() {
    let c = load_class(sample_class());
    assert_eq!(c.version, (52, 3));
    assert_eq!(c.constant_pool.len(), 28);
    assert_eq!(c.accessflag, 0x21);
    assert_eq!(c.this_class, 2);
    assert_eq!(c.super_class, 4);
    assert!(c.interfaces.is_empty());
    assert!(c.fields.is_empty());
    assert_eq!(c.methods.len(), 2);
    assert_eq!(c.methods[0].name_index, 5);
    assert_eq!(c.methods[1].name_index, 10);
    assert_eq!(c.methods[1].descriptor_index, 11);
    assert_eq!(c.methods[1].attributes_count, 1);
    assert_eq!(c.classattributes.len(), 1);
    assert!(matches!(c.classattributes[0].info, AttributeInfo::SourceFile(27)));
}

#[test]
fn load_class_refusals() {
    let mut bad = sample_class();
    bad[0] = 0xCB;
    assert_eq!(try_load_class(bad).unwrap_err(), ClassError::BadMagic);

    let mut trailing = sample_class();
    trailing.push(0);
    assert_eq!(try_load_class(trailing).unwrap_err(), ClassError::TrailingBytes);

    let mut truncated = sample_class();
    truncated.pop();
    assert_eq!(try_load_class(truncated).unwrap_err(), ClassError::UnexpectedEof);

    assert_eq!(try_load_class(vec![0xCA, 0xFE]).unwrap_err(), ClassError::UnexpectedEof);

    let mut with_interface = class_bytes(&sample_pool(), &[], &[]);
    let n = with_interface.len();
    // interfaces count sits 8 bytes before the end: ..., interfaces, fields, methods, attrs
    with_interface[n - 7] = 1;
    assert_eq!(try_load_class(with_interface).unwrap_err(), ClassError::InterfacesUnsupported);

    let mut with_field = class_bytes(&sample_pool(), &[], &[]);
    let n = with_field.len();
    with_field[n - 5] = 1;
    assert_eq!(try_load_class(with_field).unwrap_err(), ClassError::FieldsUnsupported);
}

#[test]
fn load_classes_reports_the_failing_file() {
    let files = vec![sample_class(), vec![0u8, 1, 2, 3], sample_class()];
    assert_eq!(try_load_classes(&files).unwrap_err(), (1, ClassError::BadMagic));
    let files = vec![sample_class(), sample_class()];
    let classes = load_classes(&files);
    assert_eq!(classes.len(), 2);
    assert_eq!(classes[1].methods.len(), 2);
}

#[test]
fn reader_reads_big_endian() {
    let mut reader = ByteReader::new(vec![0x12, 0x34, 0x56, 0x78, 0x9a, 0xbc]);
    assert_eq!(reader.read_u16(), Some(0x1234));
    assert_eq!(reader.read_u32(), Some(0x56789abc));
    assert_eq!(reader.position(), 6);
    assert_eq!(reader.read_u16(), None);
    assert_eq!(reader.position(), 6);
    reader.set_position(4);
    assert_eq!(reader.read_u32(), None);
    assert_eq!(reader.read_u16(), Some(0x9abc));
    assert_eq!(reader.bytes().len(), 6);
}

#[test]
fn copy_bytes_takes_a_range() {
    let bytes = [1u8, 2, 3, 4, 5];
    assert_eq!(copy_bytes(&bytes, 1, 3), Some(vec![2, 3, 4]));
    assert_eq!(copy_bytes(&bytes, 5, 0), Some(vec![]));
    assert_eq!(copy_bytes(&bytes, 3, 3), None);
    assert_eq!(copy_bytes(&bytes, 6, 0), None);
}

#[test]
fn text_is_compares_characters() {
    assert!(text_is("Code", "Code"));
    assert!(!text_is("Code", "code"));
    assert!(!text_is("Cod", "Code"));
}

#[test]
fn attributes_read_the_same_with_bytes_after_them() {
    let cp = parsed_sample_pool();
    let mut bytes = code_attribute(&[4, 177], &[line_number_table(&[(0, 9)])]);
    let len = bytes.len();
    let mut reader = ByteReader::new(bytes.clone());
    let plain = get_atributes(1, &mut reader, &cp);
    bytes.extend([0xde, 0xad, 0xbe, 0xef]);
    let mut reader = ByteReader::new(bytes);
    let padded = get_atributes(1, &mut reader, &cp);
    assert_eq!(reader.position(), len);
    assert_eq!(format!("{:?}", plain), format!("{:?}", padded));
}

#[test]
fn cloned_class_is_equal() {
    let c = load_class(sample_class());
    let d = c.clone();
    assert_eq!(format!("{:?}", c), format!("{:?}", d));
    let a = c.methods[0].attributes[0].clone();
    assert_eq!(format!("{:?}", a), format!("{:?}", c.methods[0].attributes[0]));
    let e = c.constant_pool[0].clone();
    assert!(matches!(e, ConstantPoolTags::Utf8(5, s) if s == "Hello"));
}
